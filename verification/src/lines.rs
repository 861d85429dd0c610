//! Line and field splitting and integer parsing, with the semantics of
//! std's `str::lines`, `str::splitn` and `i32::from_str`.

use vstd::prelude::*;

use crate::text::decimal;

verus! {

/// The first position at or after `i` holding `c`, or the length of `s`.
pub open spec fn next_of(s: Seq<char>, i: int, c: char) -> int
    decreases s.len() - i,
{
    if i >= s.len() {
        s.len() as int
    } else if s[i] == c {
        i
    } else {
        next_of(s, i + 1, c)
    }
}

/// The last position before `end` holding `c`, if any.
pub open spec fn last_of(s: Seq<char>, end: int, c: char) -> Option<int>
    decreases end,
{
    if end <= 0 {
        None
    } else if s[end - 1] == c {
        Some(end - 1)
    } else {
        last_of(s, end - 1, c)
    }
}

/// The last position before `end` holding `c`.
pub fn find_last(s: &[char], end: usize, c: char) -> (r: Option<usize>)
    requires
        end <= s@.len(),
    ensures
        match last_of(s@, end as int, c) {
            Some(p) => 0 <= p < end && r == Some(p as usize),
            None => r is None,
        },
        match r {
            Some(p) => p < end && s@[p as int] == c,
            None => true,
        },
{
    let mut e = end;
    while e > 0 && s[e - 1] != c
        invariant
            e <= end <= s@.len(),
            last_of(s@, end as int, c) == last_of(s@, e as int, c),
        decreases e,
    {
        e = e - 1;
    }
    proof {
        lemma_last_of_bounds(s@, e as int, c);
    }
    if e == 0 {
        None
    } else {
        Some(e - 1)
    }
}

/// What `last_of` finds lies before `end` and holds `c`.
pub proof fn lemma_last_of_bounds(s: Seq<char>, end: int, c: char)
    requires
        end <= s.len(),
    ensures
        match last_of(s, end, c) {
            Some(p) => 0 <= p < end && s[p] == c,
            None => forall|k: int| 0 <= k < end ==> s[k] != c,
        },
    decreases end,
{
    if end > 0 && s[end - 1] != c {
        lemma_last_of_bounds(s, end - 1, c);
    }
}

/// The lines of `s` from position `i` on, as `str::lines` yields them: cut
/// after each `'\n'`, which is dropped together with one `'\r'` before it;
/// a last line without `'\n'` is kept as it is; no empty line after a final
/// `'\n'`.
pub open spec fn lines_from(s: Seq<char>, i: int) -> Seq<Seq<char>>
    decreases s.len() - i,
{
    if i < 0 || i >= s.len() {
        seq![]
    } else {
        let e = next_of(s, i, '\n');
        let raw = s.subrange(i, e);
        let line = if e < s.len() && raw.len() > 0 && raw.last() == '\r' {
            raw.drop_last()
        } else {
            raw
        };
        if e < i {
            seq![]
        } else if e >= s.len() {
            seq![line]
        } else {
            seq![line] + lines_from(s, e + 1)
        }
    }
}

/// The lines of `s` (`str::lines`).
pub open spec fn lines_of(s: Seq<char>) -> Seq<Seq<char>> {
    lines_from(s, 0)
}

/// What `next_of` finds lies at or after `i`, holds `c` when inside `s`,
/// and no position before it holds `c`.
pub proof fn lemma_next_of_bounds(s: Seq<char>, i: int, c: char)
    requires
        0 <= i,
    ensures
        i <= next_of(s, i, c) <= s.len() || (i > s.len() && next_of(s, i, c) == s.len()),
        next_of(s, i, c) < s.len() ==> s[next_of(s, i, c)] == c,
        forall|j: int| i <= j < next_of(s, i, c) ==> s[j] != c,
    decreases s.len() - i,
{
    if i < s.len() && s[i] != c {
        lemma_next_of_bounds(s, i + 1, c);
    }
}

/// Splits `s` into its lines (see `lines_of`).
pub fn split_lines(s: &[char]) -> (out: Vec<Vec<char>>)
    ensures
        out@.map_values(|l: Vec<char>| l@) == lines_of(s@),
{
    let n = s.len();
    let mut out: Vec<Vec<char>> = Vec::new();
    let mut i: usize = 0;
    while i < n
        invariant
            n == s@.len(),
            i <= n,
            out@.map_values(|l: Vec<char>| l@) + lines_from(s@, i as int) == lines_of(s@),
        decreases n - i,
    {
        let mut e = i;
        let mut line: Vec<char> = Vec::new();
        while e < n && s[e] != '\n'
            invariant
                n == s@.len(),
                i <= e <= n,
                next_of(s@, i as int, '\n') == next_of(s@, e as int, '\n'),
                line@ == s@.subrange(i as int, e as int),
            decreases n - e,
        {
            line.push(s[e]);
            e = e + 1;
        }
        proof {
            assert(next_of(s@, e as int, '\n') == e);
        }
        if e < n && line.len() > 0 && line[line.len() - 1] == '\r' {
            line.pop();
        }
        let ghost before = out@.map_values(|l: Vec<char>| l@);
        out.push(line);
        proof {
            assert(out@.map_values(|l: Vec<char>| l@) == before.push(line@));
        }
        if e >= n {
            proof {
                assert(lines_from(s@, i as int) == seq![line@]);
                assert(lines_from(s@, n as int) == Seq::<Seq<char>>::empty());
                assert(before.push(line@) + Seq::<Seq<char>>::empty() == before + seq![line@]);
            }
            i = n;
        } else {
            proof {
                assert(lines_from(s@, i as int) == seq![line@] + lines_from(s@, e + 1));
                assert(before.push(line@) + lines_from(s@, e + 1) == before + (seq![line@]
                    + lines_from(s@, e + 1)));
            }
            i = e + 1;
        }
    }
    proof {
        assert(lines_from(s@, i as int) == Seq::<Seq<char>>::empty());
        assert(out@.map_values(|l: Vec<char>| l@) + Seq::<Seq<char>>::empty() == out@.map_values(
            |l: Vec<char>| l@,
        ));
    }
    out
}

/// The four fields `splitn(4, '\t')` yields from `s`, when there are four:
/// the text before each of the first three tabs, then the rest.
pub open spec fn four_fields(s: Seq<char>) -> Option<(Seq<char>, Seq<char>, Seq<char>, Seq<char>)> {
    let t1 = next_of(s, 0, '\t');
    let t2 = next_of(s, t1 + 1, '\t');
    let t3 = next_of(s, t2 + 1, '\t');
    if t1 < s.len() && t2 < s.len() && t3 < s.len() {
        Some(
            (
                s.subrange(0, t1),
                s.subrange(t1 + 1, t2),
                s.subrange(t2 + 1, t3),
                s.subrange(t3 + 1, s.len() as int),
            ),
        )
    } else {
        None
    }
}

/// The first position at or after `i` holding `c`, or the length.
fn find_from(s: &[char], i: usize, c: char) -> (r: usize)
    requires
        i <= s@.len(),
    ensures
        r as int == next_of(s@, i as int, c),
        i <= r <= s@.len(),
{
    let mut j = i;
    while j < s.len() && s[j] != c
        invariant
            i <= j <= s@.len(),
            next_of(s@, i as int, c) == next_of(s@, j as int, c),
        decreases s@.len() - j,
    {
        j = j + 1;
    }
    j
}

/// A copy of `s[lo..hi]`.
fn slice_of(s: &[char], lo: usize, hi: usize) -> (r: Vec<char>)
    requires
        lo <= hi <= s@.len(),
    ensures
        r@ == s@.subrange(lo as int, hi as int),
{
    let mut r: Vec<char> = Vec::new();
    let mut k = lo;
    while k < hi
        invariant
            lo <= k <= hi <= s@.len(),
            r@ == s@.subrange(lo as int, k as int),
        decreases hi - k,
    {
        r.push(s[k]);
        k = k + 1;
    }
    r
}

/// Splits a line into four tab-separated fields (see `four_fields`).
pub fn split_four(s: &[char]) -> (r: Option<(Vec<char>, Vec<char>, Vec<char>, Vec<char>)>)
    ensures
        match r {
            Some(f) => four_fields(s@) == Some((f.0@, f.1@, f.2@, f.3@)),
            None => four_fields(s@) is None,
        },
{
    let n = s.len();
    let t1 = find_from(s, 0, '\t');
    if t1 >= n {
        return None;
    }
    let t2 = find_from(s, t1 + 1, '\t');
    if t2 >= n {
        return None;
    }
    let t3 = find_from(s, t2 + 1, '\t');
    if t3 >= n {
        return None;
    }
    Some((slice_of(s, 0, t1), slice_of(s, t1 + 1, t2), slice_of(s, t2 + 1, t3), slice_of(s, t3 + 1, n)))
}

/// Whether `c` is an ASCII digit.
pub open spec fn is_digit(c: char) -> bool {
    '0' <= c <= '9'
}

/// The value of a string of decimal digits.
pub open spec fn digits_value(s: Seq<char>) -> nat
    decreases s.len(),
{
    if s.len() == 0 {
        0
    } else {
        digits_value(s.drop_last()) * 10 + ((s.last() as u32 - '0' as u32) as nat)
    }
}

/// What `i32::from_str` accepts: an optional `+` or `-`, then one or more
/// ASCII digits, with the value inside the range of `i32`.
pub open spec fn i32_text(s: Seq<char>) -> Option<i32> {
    let negative = s.len() > 0 && s[0] == '-';
    let v: int = if negative {
        -(digits_value(i32_body(s)) as int)
    } else {
        digits_value(i32_body(s)) as int
    };
    if i32_body(s).len() == 0 || !(forall|k: int|
        0 <= k < i32_body(s).len() ==> is_digit(#[trigger] i32_body(s)[k])) {
        None
    } else if v < i32::MIN || v > i32::MAX {
        None
    } else {
        Some(v as i32)
    }
}

/// The digits after the sign, as `i32_text` reads them.
pub open spec fn i32_body(s: Seq<char>) -> Seq<char> {
    if s.len() > 0 && (s[0] == '-' || s[0] == '+') {
        s.drop_first()
    } else {
        s
    }
}

proof fn lemma_digits_grow(s: Seq<char>, k: int)
    requires
        0 <= k <= s.len(),
        forall|j: int| 0 <= j < s.len() ==> is_digit(#[trigger] s[j]),
    ensures
        digits_value(s.take(k)) <= digits_value(s),
    decreases s.len() - k,
{
    if k < s.len() {
        lemma_digits_grow(s, k + 1);
        assert(s.take(k + 1).drop_last() == s.take(k));
    } else {
        assert(s.take(k) == s);
    }
}

proof fn lemma_i32_text_none(s: Seq<char>, j: int)
    requires
        0 <= j < i32_body(s).len(),
        !is_digit(i32_body(s)[j]),
    ensures
        i32_text(s) is None,
{
}

/// Parses a decimal `i32` as `str::parse::<i32>` does (see `i32_text`).
pub fn parse_i32(s: &[char]) -> (r: Option<i32>)
    ensures
        r == i32_text(s@),
{
    let n = s.len();
    if n == 0 {
        return None;
    }
    let negative = s[0] == '-';
    let start: usize = if s[0] == '-' || s[0] == '+' {
        1
    } else {
        0
    };
    let ghost body = if start == 1 {
        s@.drop_first()
    } else {
        s@
    };
    if start >= n {
        return None;
    }
    let mut acc: i64 = 0;
    let mut k = start;
    while k < n
        invariant
            start <= k <= n,
            n == s@.len(),
            start == 0 || start == 1,
            start < n,
            body == s@.subrange(start as int, n as int),
            body == if start == 1 {
                s@.drop_first()
            } else {
                s@
            },
            negative == (s@[0] == '-'),
            (start == 1) == (s@[0] == '-' || s@[0] == '+'),
            forall|j: int| 0 <= j < k - start ==> is_digit(#[trigger] body[j]),
            acc as int == digits_value(body.take(k - start)),
            acc <= 0x8000_0000,
        decreases n - k,
    {
        let c = s[k];
        if !('0' <= c && c <= '9') {
            assert(body == i32_body(s@));
            proof {
                lemma_i32_text_none(s@, k - start);
            }
            return None;
        }
        let d = (c as u32 - '0' as u32) as i64;
        proof {
            assert(body[k - start] == c);
            assert(body.take(k + 1 - start).drop_last() == body.take(k - start));
            assert(body.take(k + 1 - start).last() == c);
        }
        acc = acc * 10 + d;
        if acc > 0x8000_0000 {
            proof {
                let rest_digits = forall|j: int| 0 <= j < body.len() ==> is_digit(#[trigger] body[j]);
                if rest_digits {
                    lemma_digits_grow(body, k + 1 - start);
                    assert(digits_value(body) > 0x8000_0000);
                }
            }
            return None;
        }
        k = k + 1;
    }
    proof {
        assert(body.take(n - start) == body);
    }
    let v: i64 = if negative {
        -acc
    } else {
        acc
    };
    if v < i32::MIN as i64 || v > i32::MAX as i64 {
        None
    } else {
        Some(v as i32)
    }
}

/// The digits after an optional `+`, as `u64_text` reads them.
pub open spec fn u64_body(s: Seq<char>) -> Seq<char> {
    if s.len() > 0 && s[0] == '+' {
        s.drop_first()
    } else {
        s
    }
}

/// What `u64::from_str` accepts: an optional `+`, then one or more ASCII
/// digits, with the value at most `u64::MAX`.
pub open spec fn u64_text(s: Seq<char>) -> Option<u64> {
    if u64_body(s).len() == 0 || !(forall|k: int|
        0 <= k < u64_body(s).len() ==> is_digit(#[trigger] u64_body(s)[k])) {
        None
    } else if digits_value(u64_body(s)) > u64::MAX {
        None
    } else {
        Some(digits_value(u64_body(s)) as u64)
    }
}

proof fn lemma_u64_text_none(s: Seq<char>, j: int)
    requires
        0 <= j < u64_body(s).len(),
        !is_digit(u64_body(s)[j]),
    ensures
        u64_text(s) is None,
{
}

/// Parses a decimal `u64` as `str::parse::<u64>` does (see `u64_text`).
pub fn parse_u64(s: &[char]) -> (r: Option<u64>)
    ensures
        r == u64_text(s@),
{
    let n = s.len();
    if n == 0 {
        return None;
    }
    let start: usize = if s[0] == '+' {
        1
    } else {
        0
    };
    let ghost body = u64_body(s@);
    if start >= n {
        return None;
    }
    let mut acc: u128 = 0;
    let mut k = start;
    while k < n
        invariant
            start <= k <= n,
            n == s@.len(),
            start == 0 || start == 1,
            start < n,
            body == s@.subrange(start as int, n as int),
            body == u64_body(s@),
            (start == 1) == (s@[0] == '+'),
            forall|j: int| 0 <= j < k - start ==> is_digit(#[trigger] body[j]),
            acc as int == digits_value(body.take(k - start)),
            acc <= u64::MAX,
        decreases n - k,
    {
        let c = s[k];
        if !('0' <= c && c <= '9') {
            proof {
                lemma_u64_text_none(s@, k - start);
            }
            return None;
        }
        let d = (c as u32 - '0' as u32) as u128;
        proof {
            assert(body[k - start] == c);
            assert(body.take(k + 1 - start).drop_last() == body.take(k - start));
            assert(body.take(k + 1 - start).last() == c);
        }
        acc = acc * 10 + d;
        if acc > u64::MAX as u128 {
            proof {
                let rest_digits = forall|j: int| 0 <= j < body.len() ==> is_digit(#[trigger] body[j]);
                if rest_digits {
                    lemma_digits_grow(body, k + 1 - start);
                }
            }
            return None;
        }
        k = k + 1;
    }
    proof {
        assert(body.take(n - start) == body);
    }
    Some(acc as u64)
}

/// The three tab-separated fields of `s`, when it holds exactly two tabs:
/// the text before the first, between the two, and after the second.
pub open spec fn three_fields(s: Seq<char>) -> Option<(Seq<char>, Seq<char>, Seq<char>)> {
    let t1 = next_of(s, 0, '\t');
    let t2 = next_of(s, t1 + 1, '\t');
    let t3 = next_of(s, t2 + 1, '\t');
    if t1 < s.len() && t2 < s.len() && t3 >= s.len() {
        Some((s.subrange(0, t1), s.subrange(t1 + 1, t2), s.subrange(t2 + 1, s.len() as int)))
    } else {
        None
    }
}

/// Splits a line into exactly three tab-separated fields (see
/// `three_fields`).
pub fn split_three(s: &[char]) -> (r: Option<(Vec<char>, Vec<char>, Vec<char>)>)
    ensures
        match r {
            Some(f) => three_fields(s@) == Some((f.0@, f.1@, f.2@)),
            None => three_fields(s@) is None,
        },
{
    let n = s.len();
    let t1 = find_from(s, 0, '\t');
    if t1 >= n {
        return None;
    }
    let t2 = find_from(s, t1 + 1, '\t');
    if t2 >= n {
        return None;
    }
    let t3 = find_from(s, t2 + 1, '\t');
    if t3 < n {
        return None;
    }
    Some((slice_of(s, 0, t1), slice_of(s, t1 + 1, t2), slice_of(s, t2 + 1, n)))
}

} // verus!
