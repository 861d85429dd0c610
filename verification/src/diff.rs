//! Intraline word diff for the Git panel: both lines are cut into tokens
//! (runs of word characters, runs of whitespace, single punctuation marks),
//! a longest-common-subsequence table is filled over the tokens, and the
//! tokens off the common subsequence are reported as changed, as character
//! ranges of each line.

use vstd::prelude::*;
use vstd::utf8::encode_utf8;

use crate::paths::{alphanumeric, is_alphanumeric};
use crate::text::{chars_of, is_space, same_text, space};

verus! {

/// Lines longer than this many UTF-8 bytes are not compared.
pub const MAX_LINE_BYTES: usize = 2048;

/// Lines with more tokens than this are not compared.
pub const MAX_TOKENS: usize = 128;

/// The class of a character: word (`0`), whitespace (`1`), other (`2`).
pub open spec fn kind(c: char) -> int {
    if alphanumeric(c) || c == '_' {
        0
    } else if is_space(c) {
        1
    } else {
        2
    }
}

/// A token ends before position `p`: the class changes there, or the
/// character there is punctuation (which always stands alone).
pub open spec fn breaks_at(s: Seq<char>, p: int) -> bool {
    kind(s[p - 1]) != kind(s[p]) || kind(s[p]) == 2
}

/// Token spans `(start, end)` of `s` from the token starting at `start`,
/// scanning boundaries from position `p` on.
pub open spec fn spans_from(s: Seq<char>, start: int, p: int) -> Seq<(int, int)>
    decreases s.len() - p,
{
    if p >= s.len() {
        if start < s.len() {
            seq![(start, s.len() as int)]
        } else {
            seq![]
        }
    } else if p >= 1 && breaks_at(s, p) {
        seq![(start, p)] + spans_from(s, p, p + 1)
    } else {
        spans_from(s, start, p + 1)
    }
}

/// The token spans of a line, as character positions.
pub open spec fn token_spans(s: Seq<char>) -> Seq<(int, int)> {
    if s.len() == 0 {
        seq![]
    } else {
        spans_from(s, 0, 1)
    }
}

/// The token texts of a line.
pub open spec fn token_texts(s: Seq<char>) -> Seq<Seq<char>> {
    token_spans(s).map_values(|sp: (int, int)| s.subrange(sp.0, sp.1))
}

/// Length of the longest common subsequence of `a[i..]` and `b[j..]`, by
/// the recurrence the table is filled with.
pub open spec fn lcs(a: Seq<Seq<char>>, b: Seq<Seq<char>>, i: int, j: int) -> nat
    decreases a.len() - i + b.len() - j,
{
    if i < 0 || j < 0 || i >= a.len() || j >= b.len() {
        0
    } else if a[i] == b[j] {
        1 + lcs(a, b, i + 1, j + 1)
    } else {
        let down = lcs(a, b, i + 1, j);
        let across = lcs(a, b, i, j + 1);
        if down >= across {
            down
        } else {
            across
        }
    }
}

/// The tokens left off the common subsequence, walking from `(i, j)`:
/// equal tokens are kept together, otherwise a token of `a` is dropped when
/// that keeps the remaining common subsequence longest, else one of `b`.
pub open spec fn walk(a: Seq<Seq<char>>, b: Seq<Seq<char>>, i: int, j: int) -> (Seq<int>, Seq<int>)
    decreases a.len() - i + b.len() - j,
{
    if i < 0 || j < 0 || i > a.len() || j > b.len() || (i == a.len() && j == b.len()) {
        (seq![], seq![])
    } else if i < a.len() && j < b.len() && a[i] == b[j] {
        walk(a, b, i + 1, j + 1)
    } else if i < a.len() && (j == b.len() || lcs(a, b, i + 1, j) >= lcs(a, b, i, j + 1)) {
        let rest = walk(a, b, i + 1, j);
        (seq![i] + rest.0, rest.1)
    } else {
        let rest = walk(a, b, i, j + 1);
        (rest.0, seq![j] + rest.1)
    }
}

/// The character ranges of the tokens at `indices`.
pub open spec fn ranges(spans: Seq<(int, int)>, indices: Seq<int>) -> Seq<(i32, i32)> {
    indices.map_values(|k: int| (spans[k].0 as i32, spans[k].1 as i32))
}

/// What `word_changes` reports for two lines and a budget: the changed
/// ranges of each line and the budget left.
pub open spec fn changes(left: Seq<char>, right: Seq<char>, budget: nat) -> (
    Seq<(i32, i32)>,
    Seq<(i32, i32)>,
    nat,
) {
    let a = token_texts(left);
    let b = token_texts(right);
    let work = (a.len() + 1) * (b.len() + 1);
    if encode_utf8(left).len() > MAX_LINE_BYTES || encode_utf8(right).len() > MAX_LINE_BYTES {
        (seq![], seq![], budget)
    } else if a.len() > MAX_TOKENS || b.len() > MAX_TOKENS || work > budget {
        (seq![], seq![], budget)
    } else {
        let w = walk(a, b, 0, 0);
        (ranges(token_spans(left), w.0), ranges(token_spans(right), w.1), (budget - work) as nat)
    }
}

proof fn lemma_encode_len(s: Seq<char>)
    ensures
        encode_utf8(s).len() >= s.len(),
    decreases s.len(),
{
    if s.len() > 0 {
        lemma_encode_len(s.drop_first());
    }
}

fn kind_of(c: char) -> (k: u8)
    ensures
        k as int == kind(c),
{
    if is_alphanumeric(c) || c == '_' {
        0
    } else if space(c) {
        1
    } else {
        2
    }
}

proof fn lemma_spans_bounded(s: Seq<char>, start: int, p: int)
    requires
        0 <= start < p,
        start < s.len(),
    ensures
        forall|k: int|
            0 <= k < spans_from(s, start, p).len() ==> {
                let sp = #[trigger] spans_from(s, start, p)[k];
                start <= sp.0 < sp.1 <= s.len()
            },
    decreases s.len() - p,
{
    if p >= s.len() {
        assert(spans_from(s, start, p) == seq![(start, s.len() as int)]);
    } else if p >= 1 && breaks_at(s, p) {
        lemma_spans_bounded(s, p, p + 1);
        let rest = spans_from(s, p, p + 1);
        assert forall|k: int| 0 <= k < spans_from(s, start, p).len() implies {
            let sp = #[trigger] spans_from(s, start, p)[k];
            start <= sp.0 < sp.1 <= s.len()
        } by {
            if k > 0 {
                assert(spans_from(s, start, p)[k] == rest[k - 1]);
            }
        }
    } else {
        lemma_spans_bounded(s, start, p + 1);
        assert(spans_from(s, start, p) == spans_from(s, start, p + 1));
    }
}

proof fn lemma_spans_bounded_all(s: Seq<char>)
    ensures
        forall|k: int|
            0 <= k < token_spans(s).len() ==> 0 <= (#[trigger] token_spans(s)[k]).0 < token_spans(s)[k].1
                <= s.len(),
{
    if s.len() > 0 {
        lemma_spans_bounded(s, 0, 1);
    }
}

/// Cuts a line into token spans and token texts.
fn tokenize(s: &Vec<char>) -> (r: (Vec<(usize, usize)>, Vec<Vec<char>>))
    ensures
        r.0@.len() == token_spans(s@).len(),
        r.1@.len() == token_spans(s@).len(),
        forall|k: int|
            0 <= k < r.0@.len() ==> (#[trigger] r.0@[k]).0 as int == token_spans(s@)[k].0 && r.0@[
                k
            ].1 as int == token_spans(s@)[k].1,
        forall|k: int| 0 <= k < r.1@.len() ==> (#[trigger] r.1@[k])@ == token_texts(s@)[k],
{
    let n = s.len();
    let mut spans: Vec<(usize, usize)> = Vec::new();
    let mut texts: Vec<Vec<char>> = Vec::new();
    if n == 0 {
        return (spans, texts);
    }
    let ghost done: Seq<(int, int)> = seq![];
    let mut start: usize = 0;
    let mut current: Vec<char> = Vec::new();
    current.push(s[0]);
    let mut p: usize = 1;
    let mut previous = kind_of(s[0]);
    while p < n
        invariant
            n == s@.len(),
            n > 0,
            0 <= start < p <= n,
            previous as int == kind(s@[p - 1]),
            current@ == s@.subrange(start as int, p as int),
            token_spans(s@) == done + spans_from(s@, start as int, p as int),
            spans@.len() == done.len(),
            texts@.len() == done.len(),
            forall|k: int|
                0 <= k < done.len() ==> (#[trigger] spans@[k]).0 as int == done[k].0 && spans@[k].1 as int
                    == done[k].1,
            forall|k: int|
                0 <= k < done.len() ==> (#[trigger] texts@[k])@ == s@.subrange(done[k].0, done[k].1),
        decreases n - p,
    {
        let here = kind_of(s[p]);
        if here != previous || here == 2 {
            assert(breaks_at(s@, p as int));
            spans.push((start, p));
            texts.push(current);
            proof {
                assert(done + spans_from(s@, start as int, p as int) == done.push((start as int, p as int))
                    + spans_from(s@, p as int, p + 1));
                done = done.push((start as int, p as int));
            }
            current = Vec::new();
            current.push(s[p]);
            start = p;
        } else {
            assert(!breaks_at(s@, p as int));
            current.push(s[p]);
        }
        previous = here;
        p = p + 1;
    }
    spans.push((start, n));
    texts.push(current);
    proof {
        assert(spans_from(s@, start as int, n as int) == seq![(start as int, n as int)]);
        done = done.push((start as int, n as int));
        assert(token_spans(s@) == done);
    }
    (spans, texts)
}

/// Fills the table row by row from the bottom: `rows[k][q]` is the
/// common-subsequence length for `a[len(a) - k..]` and `b[q..]`.
fn lcs_rows(a: &Vec<Vec<char>>, b: &Vec<Vec<char>>) -> (rows: Vec<Vec<u16>>)
    requires
        a@.len() <= MAX_TOKENS,
        b@.len() <= MAX_TOKENS,
    ensures
        rows@.len() == a@.len() + 1,
        forall|k: int|
            0 <= k <= a@.len() ==> (#[trigger] rows@[k])@.len() == b@.len() + 1,
        forall|k: int, q: int|
            0 <= k <= a@.len() && 0 <= q <= b@.len() ==> #[trigger] rows@[k]@[q] as int == lcs(
                a@.map_values(|t: Vec<char>| t@),
                b@.map_values(|t: Vec<char>| t@),
                a@.len() - k,
                q,
            ),
{
    let ghost ta = a@.map_values(|t: Vec<char>| t@);
    let ghost tb = b@.map_values(|t: Vec<char>| t@);
    let na = a.len();
    let nb = b.len();
    let mut rows: Vec<Vec<u16>> = Vec::new();
    let zero: Vec<u16> = vec![0u16; nb + 1];
    assert forall|q: int| 0 <= q <= nb implies #[trigger] zero@[q] as int == lcs(ta, tb, na as int, q) by {
    }
    rows.push(zero);
    let mut k: usize = 1;
    while k <= na
        invariant
            na == a@.len(),
            nb == b@.len(),
            na <= MAX_TOKENS,
            nb <= MAX_TOKENS,
            ta == a@.map_values(|t: Vec<char>| t@),
            tb == b@.map_values(|t: Vec<char>| t@),
            1 <= k <= na + 1,
            rows@.len() == k,
            forall|m: int| 0 <= m < k ==> (#[trigger] rows@[m])@.len() == nb + 1,
            forall|m: int, q: int|
                0 <= m < k && 0 <= q <= nb ==> #[trigger] rows@[m]@[q] as int == lcs(
                    ta,
                    tb,
                    na - m,
                    q,
                ),
            forall|m: int, q: int|
                0 <= m < k && 0 <= q <= nb ==> #[trigger] rows@[m]@[q] <= m,
        decreases na + 1 - k,
    {
        let i = na - k;
        let below = &rows[k - 1];
        let mut cur: Vec<u16> = vec![0u16; nb + 1];
        let mut j = nb;
        while j > 0
            invariant
                na == a@.len(),
                nb == b@.len(),
                ta == a@.map_values(|t: Vec<char>| t@),
                tb == b@.map_values(|t: Vec<char>| t@),
                i == na - k,
                1 <= k <= na,
                na <= MAX_TOKENS,
                below@.len() == nb + 1,
                forall|q: int| 0 <= q <= nb ==> #[trigger] below@[q] as int == lcs(ta, tb, i + 1, q),
                forall|q: int| 0 <= q <= nb ==> #[trigger] below@[q] <= k - 1,
                cur@.len() == nb + 1,
                j <= nb,
                forall|q: int| j <= q <= nb ==> #[trigger] cur@[q] as int == lcs(ta, tb, i as int, q),
                forall|q: int| j <= q <= nb ==> #[trigger] cur@[q] <= k,
            decreases j,
        {
            let q = j - 1;
            let same = same_text(&a[i], &b[q]);
            assert(ta[i as int] == a@[i as int]@);
            assert(tb[q as int] == b@[q as int]@);
            let v: u16 = if same {
                1 + below[q + 1]
            } else {
                let down = below[q];
                let across = cur[q + 1];
                if down >= across {
                    down
                } else {
                    across
                }
            };
            cur.set(q, v);
            j = q;
        }
        rows.push(cur);
        k = k + 1;
    }
    rows
}

proof fn lemma_walk_counts(a: Seq<Seq<char>>, b: Seq<Seq<char>>, i: int, j: int)
    requires
        0 <= i <= a.len(),
        0 <= j <= b.len(),
    ensures
        walk(a, b, i, j).0.len() + lcs(a, b, i, j) == a.len() - i,
        walk(a, b, i, j).1.len() + lcs(a, b, i, j) == b.len() - j,
        forall|k: int|
            0 <= k < walk(a, b, i, j).0.len() ==> i <= #[trigger] walk(a, b, i, j).0[k] < a.len(),
        forall|k: int|
            0 <= k < walk(a, b, i, j).1.len() ==> j <= #[trigger] walk(a, b, i, j).1[k] < b.len(),
        forall|k: int, m: int|
            0 <= k < m < walk(a, b, i, j).0.len() ==> walk(a, b, i, j).0[k] < walk(a, b, i, j).0[m],
        forall|k: int, m: int|
            0 <= k < m < walk(a, b, i, j).1.len() ==> walk(a, b, i, j).1[k] < walk(a, b, i, j).1[m],
    decreases a.len() - i + b.len() - j,
{
    if i == a.len() && j == b.len() {
    } else if i < a.len() && j < b.len() && a[i] == b[j] {
        lemma_walk_counts(a, b, i + 1, j + 1);
    } else if i < a.len() && (j == b.len() || lcs(a, b, i + 1, j) >= lcs(a, b, i, j + 1)) {
        lemma_walk_counts(a, b, i + 1, j);
        if j == b.len() {
            lemma_lcs_edge(a, b, i, j);
            lemma_lcs_edge(a, b, i + 1, j);
        }
        let rest = walk(a, b, i + 1, j);
        let w = walk(a, b, i, j);
        assert(w.0 == seq![i] + rest.0);
        assert forall|k: int| 0 <= k < w.0.len() implies i <= #[trigger] w.0[k] < a.len() by {
            if k > 0 {
                assert(w.0[k] == rest.0[k - 1]);
            }
        }
        assert forall|k: int, m: int| 0 <= k < m < w.0.len() implies w.0[k] < w.0[m] by {
            if k > 0 {
                assert(w.0[k] == rest.0[k - 1]);
            }
            assert(w.0[m] == rest.0[m - 1]);
        }
    } else {
        lemma_walk_counts(a, b, i, j + 1);
        if i == a.len() {
            lemma_lcs_edge(a, b, i, j);
            lemma_lcs_edge(a, b, i, j + 1);
        }
        let rest = walk(a, b, i, j + 1);
        let w = walk(a, b, i, j);
        assert(w.1 == seq![j] + rest.1);
        assert forall|k: int| 0 <= k < w.1.len() implies j <= #[trigger] w.1[k] < b.len() by {
            if k > 0 {
                assert(w.1[k] == rest.1[k - 1]);
            }
        }
        assert forall|k: int, m: int| 0 <= k < m < w.1.len() implies w.1[k] < w.1[m] by {
            if k > 0 {
                assert(w.1[k] == rest.1[k - 1]);
            }
            assert(w.1[m] == rest.1[m - 1]);
        }
    }
}

proof fn lemma_lcs_edge(a: Seq<Seq<char>>, b: Seq<Seq<char>>, i: int, j: int)
    requires
        i >= a.len() || j >= b.len(),
    ensures
        lcs(a, b, i, j) == 0,
{
}

/// The token pairs kept together along the walk from `(i, j)`: the
/// positions of equal tokens the walk steps over on both sides at once.
pub open spec fn matched(a: Seq<Seq<char>>, b: Seq<Seq<char>>, i: int, j: int) -> Seq<(int, int)>
    decreases a.len() - i + b.len() - j,
{
    if i < 0 || j < 0 || i > a.len() || j > b.len() || (i == a.len() && j == b.len()) {
        seq![]
    } else if i < a.len() && j < b.len() && a[i] == b[j] {
        seq![(i, j)] + matched(a, b, i + 1, j + 1)
    } else if i < a.len() && (j == b.len() || lcs(a, b, i + 1, j) >= lcs(a, b, i, j + 1)) {
        matched(a, b, i + 1, j)
    } else {
        matched(a, b, i, j + 1)
    }
}

/// Every token not reported as changed is paired with an equal token on
/// the other side: the pairs are equal tokens, in increasing order on both
/// sides, there are as many as the common-subsequence length, and each
/// token of either side is changed or paired.
pub proof fn unchanged_tokens_pair_up(a: Seq<Seq<char>>, b: Seq<Seq<char>>, i: int, j: int)
    requires
        0 <= i <= a.len(),
        0 <= j <= b.len(),
    ensures
        matched(a, b, i, j).len() == lcs(a, b, i, j),
        forall|k: int|
            0 <= k < matched(a, b, i, j).len() ==> {
                let p = #[trigger] matched(a, b, i, j)[k];
                &&& i <= p.0 < a.len()
                &&& j <= p.1 < b.len()
                &&& a[p.0] == b[p.1]
            },
        forall|k: int, m: int|
            0 <= k < m < matched(a, b, i, j).len() ==> matched(a, b, i, j)[k].0 < matched(
                a,
                b,
                i,
                j,
            )[m].0 && matched(a, b, i, j)[k].1 < matched(a, b, i, j)[m].1,
        forall|x: int|
            i <= x < a.len() ==> walk(a, b, i, j).0.contains(x) || exists|k: int|
                0 <= k < matched(a, b, i, j).len() && #[trigger] matched(a, b, i, j)[k].0 == x,
        forall|y: int|
            j <= y < b.len() ==> walk(a, b, i, j).1.contains(y) || exists|k: int|
                0 <= k < matched(a, b, i, j).len() && #[trigger] matched(a, b, i, j)[k].1 == y,
    decreases a.len() - i + b.len() - j,
{
    let m = matched(a, b, i, j);
    let w = walk(a, b, i, j);
    if i == a.len() && j == b.len() {
    } else if i < a.len() && j < b.len() && a[i] == b[j] {
        unchanged_tokens_pair_up(a, b, i + 1, j + 1);
        let r = matched(a, b, i + 1, j + 1);
        assert(m == seq![(i, j)] + r);
        assert(w == walk(a, b, i + 1, j + 1));
        assert forall|k: int| 0 <= k < m.len() implies {
            let p = #[trigger] m[k];
            &&& i <= p.0 < a.len()
            &&& j <= p.1 < b.len()
            &&& a[p.0] == b[p.1]
        } by {
            if k > 0 {
                assert(m[k] == r[k - 1]);
            }
        }
        assert forall|k: int, n: int| 0 <= k < n < m.len() implies m[k].0 < m[n].0 && m[k].1 < m[n].1 by {
            if k > 0 {
                assert(m[k] == r[k - 1]);
            }
            assert(m[n] == r[n - 1]);
        }
        assert forall|x: int| i <= x < a.len() implies w.0.contains(x) || exists|k: int|
            0 <= k < m.len() && #[trigger] m[k].0 == x by {
            if x == i {
                assert(m[0].0 == x);
            } else if !w.0.contains(x) {
                let k = choose|k: int| 0 <= k < r.len() && #[trigger] r[k].0 == x;
                assert(m[k + 1] == r[k]);
            }
        }
        assert forall|y: int| j <= y < b.len() implies w.1.contains(y) || exists|k: int|
            0 <= k < m.len() && #[trigger] m[k].1 == y by {
            if y == j {
                assert(m[0].1 == y);
            } else if !w.1.contains(y) {
                let k = choose|k: int| 0 <= k < r.len() && #[trigger] r[k].1 == y;
                assert(m[k + 1] == r[k]);
            }
        }
    } else if i < a.len() && (j == b.len() || lcs(a, b, i + 1, j) >= lcs(a, b, i, j + 1)) {
        unchanged_tokens_pair_up(a, b, i + 1, j);
        if j == b.len() {
            lemma_lcs_edge(a, b, i, j);
            lemma_lcs_edge(a, b, i + 1, j);
        }
        let rest = walk(a, b, i + 1, j);
        assert(w.0 == seq![i] + rest.0);
        assert(w.1 == rest.1);
        assert forall|x: int| i <= x < a.len() implies w.0.contains(x) || exists|k: int|
            0 <= k < m.len() && #[trigger] m[k].0 == x by {
            if x == i {
                assert(w.0[0] == x);
            } else if rest.0.contains(x) {
                let k = choose|k: int| 0 <= k < rest.0.len() && rest.0[k] == x;
                assert(w.0[k + 1] == x);
            }
        }
    } else {
        unchanged_tokens_pair_up(a, b, i, j + 1);
        if i == a.len() {
            lemma_lcs_edge(a, b, i, j);
            lemma_lcs_edge(a, b, i, j + 1);
        }
        let rest = walk(a, b, i, j + 1);
        assert(w.1 == seq![j] + rest.1);
        assert(w.0 == rest.0);
        assert forall|y: int| j <= y < b.len() implies w.1.contains(y) || exists|k: int|
            0 <= k < m.len() && #[trigger] m[k].1 == y by {
            if y == j {
                assert(w.1[0] == y);
            } else if rest.1.contains(y) {
                let k = choose|k: int| 0 <= k < rest.1.len() && rest.1[k] == y;
                assert(w.1[k + 1] == y);
            }
        }
    }
}

/// The number of changed tokens on each side is that side's token count
/// less the common-subsequence length, and the changed tokens are listed
/// in increasing order.
pub proof fn changed_counts(a: Seq<Seq<char>>, b: Seq<Seq<char>>)
    ensures
        walk(a, b, 0, 0).0.len() == a.len() - lcs(a, b, 0, 0),
        walk(a, b, 0, 0).1.len() == b.len() - lcs(a, b, 0, 0),
        forall|k: int, m: int|
            0 <= k < m < walk(a, b, 0, 0).0.len() ==> walk(a, b, 0, 0).0[k] < walk(a, b, 0, 0).0[m],
        forall|k: int, m: int|
            0 <= k < m < walk(a, b, 0, 0).1.len() ==> walk(a, b, 0, 0).1[k] < walk(a, b, 0, 0).1[m],
{
    lemma_walk_counts(a, b, 0, 0);
}

proof fn lemma_word_run_spans(s: Seq<char>, p: int)
    requires
        1 <= p <= s.len(),
        forall|k: int| 0 <= k < s.len() ==> alphanumeric(#[trigger] s[k]) || s[k] == '_',
    ensures
        spans_from(s, 0, p) == seq![(0int, s.len() as int)],
    decreases s.len() - p,
{
    if p < s.len() {
        assert(alphanumeric(s[p - 1]) || s[p - 1] == '_');
        assert(alphanumeric(s[p]) || s[p] == '_');
        lemma_word_run_spans(s, p + 1);
    }
}

/// A run of letters, digits and underscores is a single token: a line made
/// only of such characters is cut into one token spanning all of it.
pub proof fn word_characters_form_one_token(s: Seq<char>)
    requires
        s.len() > 0,
        forall|k: int| 0 <= k < s.len() ==> alphanumeric(#[trigger] s[k]) || s[k] == '_',
    ensures
        token_spans(s) == seq![(0int, s.len() as int)],
        token_texts(s) == seq![s],
{
    lemma_word_run_spans(s, 1);
    assert(token_spans(s) == seq![(0int, s.len() as int)]);
    assert(token_texts(s).len() == 1);
    assert(token_texts(s)[0] == s.subrange(0, s.len() as int));
    assert(s.subrange(0, s.len() as int) =~= s);
    assert(token_texts(s) =~= seq![s]);
}

proof fn lemma_space_run_spans(s: Seq<char>, p: int)
    requires
        1 <= p <= s.len(),
        forall|k: int| 0 <= k < s.len() ==> is_space(#[trigger] s[k]) && !alphanumeric(s[k]) && s[k] != '_',
    ensures
        spans_from(s, 0, p) == seq![(0int, s.len() as int)],
    decreases s.len() - p,
{
    if p < s.len() {
        assert(is_space(s[p - 1]) && !alphanumeric(s[p - 1]) && s[p - 1] != '_');
        assert(is_space(s[p]) && !alphanumeric(s[p]) && s[p] != '_');
        lemma_space_run_spans(s, p + 1);
    }
}

/// A run of whitespace (none of it a word character) is a single token.
pub proof fn whitespace_forms_one_token(s: Seq<char>)
    requires
        s.len() > 0,
        forall|k: int| 0 <= k < s.len() ==> is_space(#[trigger] s[k]) && !alphanumeric(s[k]) && s[k] != '_',
    ensures
        token_spans(s) == seq![(0int, s.len() as int)],
{
    lemma_space_run_spans(s, 1);
}

proof fn lemma_punctuation_spans(s: Seq<char>, start: int, p: int)
    requires
        1 <= p <= s.len(),
        start == p - 1,
        forall|k: int| 0 <= k < s.len() ==> !is_space(#[trigger] s[k]) && !alphanumeric(s[k]) && s[k] != '_',
    ensures
        spans_from(s, start, p) == Seq::new((s.len() - start) as nat, |k: int| (start + k, start + k + 1)),
    decreases s.len() - p,
{
    if p < s.len() {
        assert(!is_space(s[p]) && !alphanumeric(s[p]) && s[p] != '_');
        lemma_punctuation_spans(s, p, p + 1);
        assert(spans_from(s, start, p) =~= Seq::new((s.len() - start) as nat, |k: int| (start + k, start + k + 1)));
    } else {
        assert(spans_from(s, start, p) =~= Seq::new((s.len() - start) as nat, |k: int| (start + k, start + k + 1)));
    }
}

/// Punctuation always stands alone: a line made only of characters that
/// are neither word characters nor whitespace is cut into one token per
/// character.
pub proof fn punctuation_stands_alone(s: Seq<char>)
    requires
        forall|k: int| 0 <= k < s.len() ==> !is_space(#[trigger] s[k]) && !alphanumeric(s[k]) && s[k] != '_',
    ensures
        token_spans(s) == Seq::new(s.len(), |k: int| (k, k + 1)),
{
    if s.len() > 0 {
        lemma_punctuation_spans(s, 0, 1);
    }
    assert(token_spans(s) =~= Seq::new(s.len(), |k: int| (k, k + 1)));
}

/// The changed token ranges of two lines, within a shared work budget.
///
/// Both lines are compared only if each is at most 2048 bytes, each has at
/// most 128 tokens, and the table (`(tokens + 1)` squared, per side) fits
/// in `budget`; then the table size is taken from `budget`.  Otherwise both
/// lists are empty and the budget is unchanged.
pub fn word_changes(left: &str, right: &str, budget: &mut usize) -> (r: [Vec<(i32, i32)>; 2])
    ensures
        ({
            let c = changes(left@, right@, *old(budget) as nat);
            &&& r[0]@ == c.0
            &&& r[1]@ == c.1
            &&& *final(budget) as nat == c.2
        }),
{
    if left.as_bytes().len() > MAX_LINE_BYTES || right.as_bytes().len() > MAX_LINE_BYTES {
        return [Vec::new(), Vec::new()];
    }
    proof {
        lemma_encode_len(left@);
        lemma_encode_len(right@);
    }
    let lc = chars_of(left);
    let rc = chars_of(right);
    let (aspans, a) = tokenize(&lc);
    let (bspans, b) = tokenize(&rc);
    let ghost ta = a@.map_values(|t: Vec<char>| t@);
    let ghost tb = b@.map_values(|t: Vec<char>| t@);
    assert(ta == token_texts(left@));
    assert(tb == token_texts(right@));
    if a.len() > MAX_TOKENS || b.len() > MAX_TOKENS {
        return [Vec::new(), Vec::new()];
    }
    assert((a@.len() + 1) * (b@.len() + 1) <= 129 * 129) by (nonlinear_arith)
        requires
            a@.len() <= 128,
            b@.len() <= 128,
    ;
    let work = (a.len() + 1) * (b.len() + 1);
    if work > *budget {
        return [Vec::new(), Vec::new()];
    }
    *budget = *budget - work;
    let rows = lcs_rows(&a, &b);
    let na = a.len();
    let nb = b.len();
    let mut left_changes: Vec<(i32, i32)> = Vec::new();
    let mut right_changes: Vec<(i32, i32)> = Vec::new();
    let ghost whole = walk(ta, tb, 0, 0);
    let ghost sa = token_spans(left@);
    let ghost sb = token_spans(right@);
    proof {
        lemma_spans_bounded_all(left@);
        lemma_spans_bounded_all(right@);
    }
    let ghost li: Seq<int> = seq![];
    let ghost ri: Seq<int> = seq![];
    let mut i: usize = 0;
    let mut j: usize = 0;
    while i < na || j < nb
        invariant
            na == a@.len(),
            nb == b@.len(),
            na <= MAX_TOKENS,
            nb <= MAX_TOKENS,
            ta == a@.map_values(|t: Vec<char>| t@),
            tb == b@.map_values(|t: Vec<char>| t@),
            sa == token_spans(left@),
            sb == token_spans(right@),
            sa.len() == na,
            sb.len() == nb,
            aspans@.len() == na,
            bspans@.len() == nb,
            forall|k: int|
                0 <= k < na ==> (#[trigger] aspans@[k]).0 as int == sa[k].0 && aspans@[k].1 as int
                    == sa[k].1,
            forall|k: int|
                0 <= k < nb ==> (#[trigger] bspans@[k]).0 as int == sb[k].0 && bspans@[k].1 as int
                    == sb[k].1,
            forall|k: int| 0 <= k < sa.len() ==> 0 <= (#[trigger] sa[k]).0 < sa[k].1 <= left@.len(),
            forall|k: int| 0 <= k < sb.len() ==> 0 <= (#[trigger] sb[k]).0 < sb[k].1 <= right@.len(),
            left@.len() <= MAX_LINE_BYTES,
            right@.len() <= MAX_LINE_BYTES,
            rows@.len() == na + 1,
            forall|k: int| 0 <= k <= na ==> (#[trigger] rows@[k])@.len() == nb + 1,
            forall|k: int, q: int|
                0 <= k <= na && 0 <= q <= nb ==> #[trigger] rows@[k]@[q] as int == lcs(
                    ta,
                    tb,
                    na - k,
                    q,
                ),
            i <= na,
            j <= nb,
            forall|k: int| 0 <= k < li.len() ==> 0 <= #[trigger] li[k] < na,
            forall|k: int| 0 <= k < ri.len() ==> 0 <= #[trigger] ri[k] < nb,
            whole.0 == li + walk(ta, tb, i as int, j as int).0,
            whole.1 == ri + walk(ta, tb, i as int, j as int).1,
            left_changes@ == ranges(sa, li),
            right_changes@ == ranges(sb, ri),
        decreases na + nb - i - j,
    {
        let same = i < na && j < nb && same_text(&a[i], &b[j]);
        if i < na && j < nb {
            assert(ta[i as int] == a@[i as int]@);
            assert(tb[j as int] == b@[j as int]@);
        }
        if same {
            i = i + 1;
            j = j + 1;
        } else if i < na && (j == nb || rows[na - i - 1][j] >= rows[na - i][j + 1]) {
            let (s0, s1) = aspans[i];
            left_changes.push((s0 as i32, s1 as i32));
            proof {
                let rest = walk(ta, tb, i + 1, j as int);
                assert(walk(ta, tb, i as int, j as int).0 == seq![i as int] + rest.0);
                assert(li + (seq![i as int] + rest.0) == li.push(i as int) + rest.0);
                assert(ranges(sa, li.push(i as int)) == ranges(sa, li).push((sa[i as int].0 as i32, sa[i as int].1 as i32)));
                li = li.push(i as int);
            }
            i = i + 1;
        } else {
            let (s0, s1) = bspans[j];
            right_changes.push((s0 as i32, s1 as i32));
            proof {
                let rest = walk(ta, tb, i as int, j + 1);
                assert(walk(ta, tb, i as int, j as int).1 == seq![j as int] + rest.1);
                assert(ri + (seq![j as int] + rest.1) == ri.push(j as int) + rest.1);
                assert(ranges(sb, ri.push(j as int)) == ranges(sb, ri).push((sb[j as int].0 as i32, sb[j as int].1 as i32)));
                ri = ri.push(j as int);
            }
            j = j + 1;
        }
    }
    assert(li + walk(ta, tb, na as int, nb as int).0 == li);
    assert(ri + walk(ta, tb, na as int, nb as int).1 == ri);
    [left_changes, right_changes]
}

} // verus!
