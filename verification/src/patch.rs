//! Reading a unified diff for display: line by line, which file and hunk a
//! line belongs to, its old and new line numbers, whether it shows, and
//! the rows the unified and side-by-side views append for it.

use vstd::prelude::*;

use crate::lines::{parse_u64, u64_text};
use crate::surface::FoldSet;
use crate::text::{
    begins_with,
    chars_of,
    decimal,
    owned,
    push_char,
    push_text,
    split_words,
    starts_with,
    string_from,
    words,
};

verus! {

/// Where the reader stands in the diff.
pub struct PatchState {
    /// The next old and new line numbers.
    pub old: u64,
    pub new: u64,
    /// Inside a hunk (after its `@@` line).
    pub in_hunk: bool,
    /// The current file: its `diff --git` line, then its `+++ b/` path.
    pub file: String,
    /// The key of the current hunk: the file, a line break, its `@@` line.
    pub hunk: String,
}

/// The state as plain values.
pub struct PatchView {
    pub old: u64,
    pub new: u64,
    pub in_hunk: bool,
    pub file: Seq<char>,
    pub hunk: Seq<char>,
}

impl PatchState {
    pub open spec fn view_of(&self) -> PatchView {
        PatchView {
            old: self.old,
            new: self.new,
            in_hunk: self.in_hunk,
            file: self.file@,
            hunk: self.hunk@,
        }
    }

    /// Before the first line.
    pub fn new() -> (r: Self)
        ensures
            r.view_of() == (PatchView {
                old: 0,
                new: 0,
                in_hunk: false,
                file: Seq::empty(),
                hunk: Seq::empty(),
            }),
    {
        PatchState { old: 0, new: 0, in_hunk: false, file: String::new(), hunk: String::new() }
    }
}

/// The highlighting of a row.
#[derive(Clone, Copy, PartialEq, Eq, Structural, Debug)]
pub enum RowTag {
    Plain,
    Added,
    Removed,
    Header,
}

/// What the side-by-side view does with a line.
pub enum SplitRow {
    /// Held back as a removed row (old side).
    Removed(String),
    /// Held back as an added row (new side).
    Added(String),
    /// Appended at once to the old and the new side.
    Both(String, String),
}

/// What one diff line gives the views.
pub struct LineOut {
    /// Held-back removed and added rows are to be written out first.
    pub flush: bool,
    /// A hunk starts here: its key and its label for the hunk picker.
    pub hunk: Option<(String, String)>,
    /// The line shows (its hunk is not folded, and it is not hidden
    /// context).
    pub shown: bool,
    pub tag: RowTag,
    /// The unified view's row.
    pub unified: String,
    /// The side-by-side view's rows; `None` for an empty line inside a
    /// hunk, which that view cannot cut its marker from.
    pub split: Option<SplitRow>,
}

/// `n` right-aligned in five columns (`format!("{n:>5}")`).
pub open spec fn padded(n: nat) -> Seq<char> {
    let d = decimal(n);
    if d.len() < 5 {
        Seq::new((5 - d.len()) as nat, |i: int| ' ') + d
    } else {
        d
    }
}

/// `s` with every leading `c` removed (`str::trim_start_matches`).
pub open spec fn trim_leading(s: Seq<char>, c: char) -> Seq<char>
    decreases s.len(),
{
    if s.len() > 0 && s[0] == c {
        trim_leading(s.drop_first(), c)
    } else {
        s
    }
}

/// `s` up to its first `','`.
pub open spec fn before_comma(s: Seq<char>) -> Seq<char> {
    s.take(crate::lines::next_of(s, 0, ','))
}

/// A hunk range's start: the leading signs trimmed, the text before the
/// comma parsed; `0` when that fails.
pub open spec fn range_start(token: Option<Seq<char>>, sign: char) -> u64 {
    match token {
        Some(t) => match u64_text(before_comma(trim_leading(t, sign))) {
            Some(n) => n,
            None => 0,
        },
        None => 0,
    }
}

/// The kind of a line: its first character inside a hunk (a space for an
/// empty line), and NUL outside a hunk or on a header line.
pub open spec fn kind_of(in_hunk: bool, header: bool, line: Seq<char>) -> char {
    if in_hunk && !header {
        if line.len() > 0 {
            line[0]
        } else {
            ' '
        }
    } else {
        '\0'
    }
}

/// Five spaces: no line number.
pub open spec fn blank_number() -> Seq<char> {
    seq![' ', ' ', ' ', ' ', ' ']
}

/// The state after a line's file and hunk bookkeeping, before numbering.
pub open spec fn enter_line(s: PatchView, line: Seq<char>) -> PatchView {
    let s1 = if starts_with(line, "diff --git"@) {
        PatchView { in_hunk: false, file: line, ..s }
    } else {
        s
    };
    let s2 = if starts_with(line, "+++ b/"@) {
        PatchView { file: line.skip(6), ..s1 }
    } else {
        s1
    };
    if starts_with(line, "@@ "@) {
        let w = words(line);
        PatchView {
            old: range_start(
                if w.len() > 1 {
                    Some(w[1])
                } else {
                    None
                },
                '-',
            ),
            new: range_start(
                if w.len() > 2 {
                    Some(w[2])
                } else {
                    None
                },
                '+',
            ),
            in_hunk: true,
            hunk: s2.file + seq!['\n'] + line,
            ..s2
        }
    } else {
        s2
    }
}

/// Whether a line is a header (`@@` or `diff --git`).
pub open spec fn is_header(line: Seq<char>) -> bool {
    starts_with(line, "@@"@) || starts_with(line, "diff --git"@)
}

/// The state after a whole line: bookkeeping, then the old number counts
/// up on removed and context lines, the new number on added and context
/// lines.
pub open spec fn after_line(s: PatchView, line: Seq<char>) -> PatchView {
    let e = enter_line(s, line);
    let kind = kind_of(e.in_hunk, is_header(line), line);
    PatchView {
        old: if kind == '-' || kind == ' ' {
            (e.old + 1) as u64
        } else {
            e.old
        },
        new: if kind == '+' || kind == ' ' {
            (e.new + 1) as u64
        } else {
            e.new
        },
        ..e
    }
}

/// Whether a line can be read from state `s` without a line number
/// running past `u64::MAX`.
pub open spec fn numbers_fit(s: PatchView, line: Seq<char>) -> bool {
    let e = enter_line(s, line);
    let kind = kind_of(e.in_hunk, is_header(line), line);
    &&& (kind == '-' || kind == ' ') ==> e.old < u64::MAX
    &&& (kind == '+' || kind == ' ') ==> e.new < u64::MAX
}

/// The line as shown: a folded hunk's `@@` line gets `"  [collapsed]"`.
pub open spec fn shown_text(line: Seq<char>, folded: bool) -> Seq<char> {
    if starts_with(line, "@@ "@) && folded {
        line + "  [collapsed]"@
    } else {
        line
    }
}

/// The row tag of a line.
pub open spec fn tag_of(kind: char, header: bool) -> RowTag {
    if kind == '+' {
        RowTag::Added
    } else if kind == '-' {
        RowTag::Removed
    } else if header {
        RowTag::Header
    } else {
        RowTag::Plain
    }
}

fn push_padded(s: &mut String, n: u64)
    ensures
        final(s)@ == old(s)@ + padded(n as nat),
{
    let d = crate::text::decimal_text(n);
    let len = chars_of(d.as_str()).len();
    let mut k = len;
    let ghost start = s@;
    while k < 5
        invariant
            len <= k <= 5 || (len > 5 && k == len),
            s@ == start + Seq::new((k - len) as nat, |i: int| ' '),
        decreases 5 - k,
    {
        push_char(s, ' ');
        proof {
            assert(Seq::new((k + 1 - len) as nat, |i: int| ' ') == Seq::new((k - len) as nat, |i: int| ' ').push(' '));
        }
        k = k + 1;
    }
    push_text(s, d.as_str());
    proof {
        if len >= 5 {
            assert(Seq::new((k - len) as nat, |i: int| ' ') == Seq::<char>::empty());
        }
    }
}

fn trimmed_leading(s: &[char], c: char) -> (r: Vec<char>)
    ensures
        r@ == trim_leading(s@, c),
{
    let mut i: usize = 0;
    assert(s@.skip(0) == s@);
    while i < s.len() && s[i] == c
        invariant
            i <= s@.len(),
            trim_leading(s@, c) == trim_leading(s@.skip(i as int), c),
        decreases s@.len() - i,
    {
        proof {
            assert(s@.skip(i as int).drop_first() == s@.skip(i + 1));
        }
        i = i + 1;
    }
    let mut r: Vec<char> = Vec::new();
    let mut k = i;
    while k < s.len()
        invariant
            i <= k <= s@.len(),
            r@ == s@.subrange(i as int, k as int),
        decreases s@.len() - k,
    {
        r.push(s[k]);
        k = k + 1;
    }
    assert(r@ == s@.skip(i as int));
    r
}

fn parse_range(token: Option<&Vec<char>>, sign: char) -> (r: u64)
    ensures
        r == range_start(
            match token {
                Some(t) => Some(t@),
                None => None,
            },
            sign,
        ),
{
    match token {
        None => 0,
        Some(t) => {
            let trimmed = trimmed_leading(t, sign);
            let mut head: Vec<char> = Vec::new();
            let mut k: usize = 0;
            while k < trimmed.len() && trimmed[k] != ','
                invariant
                    k <= trimmed@.len(),
                    head@ == trimmed@.take(k as int),
                    crate::lines::next_of(trimmed@, 0, ',') == crate::lines::next_of(trimmed@, k as int, ','),
                decreases trimmed@.len() - k,
            {
                head.push(trimmed[k]);
                proof {
                    assert(trimmed@.take(k + 1) == trimmed@.take(k as int).push(trimmed@[k as int]));
                }
                k = k + 1;
            }
            proof {
                assert(crate::lines::next_of(trimmed@, k as int, ',') == k);
            }
            match parse_u64(&head) {
                Some(n) => n,
                None => 0,
            }
        },
    }
}

/// A side-by-side row: the line number, a bar and the line without its
/// marker.
fn side_row(number: &str, content: &str) -> (r: String)
    ensures
        r@ == number@ + " │ "@ + content@ + seq!['\n'],
{
    let mut r = owned(number);
    push_text(&mut r, " │ ");
    push_text(&mut r, content);
    push_char(&mut r, '\n');
    r
}

/// The file and hunk bookkeeping of one line (see `enter_line`).
fn enter(state: &mut PatchState, line: &str)
    ensures
        final(state).view_of() == enter_line(old(state).view_of(), line@),
{
    let chars = chars_of(line);
    let diff_git = chars_of("diff --git");
    let plus_b = chars_of("+++ b/");
    let at_at = chars_of("@@");
    let at_at_space = chars_of("@@ ");
    proof {
        reveal_strlit("+++ b/");
    }
    let ghost s0 = state.view_of();
    if begins_with(&chars, &diff_git) {
        state.in_hunk = false;
        state.file = owned(line);
    }
    let ghost s1 = state.view_of();
    assert(s1 == (if starts_with(line@, "diff --git"@) {
        PatchView { in_hunk: false, file: line@, ..s0 }
    } else {
        s0
    }));
    if begins_with(&chars, &plus_b) {
        let mut rest: Vec<char> = Vec::new();
        let mut k: usize = 6;
        while k < chars.len()
            invariant
                6 <= k <= chars@.len(),
                rest@ == chars@.subrange(6, k as int),
            decreases chars@.len() - k,
        {
            rest.push(chars[k]);
            k = k + 1;
        }
        assert(rest@ == chars@.skip(6));
        state.file = string_from(&rest);
    }
    let ghost s2 = state.view_of();
    assert(s2 == (if starts_with(line@, "+++ b/"@) {
        PatchView { file: line@.skip(6), ..s1 }
    } else {
        s1
    }));
    let starts_hunk = begins_with(&chars, &at_at_space);
    if starts_hunk {
        let w = split_words(&chars);
        proof {
            if w@.len() > 1 {
                assert(w@[1]@ == words(line@)[1]);
            }
            if w@.len() > 2 {
                assert(w@[2]@ == words(line@)[2]);
            }
        }
        let old_start = parse_range(
            if w.len() > 1 {
                Some(&w[1])
            } else {
                None
            },
            '-',
        );
        let new_start = parse_range(
            if w.len() > 2 {
                Some(&w[2])
            } else {
                None
            },
            '+',
        );
        state.old = old_start;
        state.new = new_start;
        state.in_hunk = true;
        let mut key = owned(state.file.as_str());
        push_char(&mut key, '\n');
        push_text(&mut key, line);
        state.hunk = key;
        proof {
            let w2 = words(line@);
            assert(old_start == range_start(
                if w2.len() > 1 {
                    Some(w2[1])
                } else {
                    None
                },
                '-',
            ));
            assert(new_start == range_start(
                if w2.len() > 2 {
                    Some(w2[2])
                } else {
                    None
                },
                '+',
            ));
            assert(state.file@ == s2.file);
            assert(state.hunk@ == s2.file + seq!['\n'] + line@);
            assert(state.old == old_start);
            assert(state.view_of() == PatchView {
                old: old_start,
                new: new_start,
                in_hunk: true,
                hunk: s2.file + seq!['\n'] + line@,
                ..s2
            });
        }
    }
}

/// What the views do with `line`, read in state `e` (after its
/// bookkeeping): the held-back rows are written first unless the line is
/// added or removed; a hunk line opens a hunk entry; the line hides when
/// its hunk is folded or it is unchanged context while context is off;
/// rows carry the line numbers (blank where a side has none) and the line,
/// a folded hunk's line marked; the side-by-side rows drop the marker.
pub open spec fn line_out_of(out: LineOut, e: PatchView, line: Seq<char>, context: bool, folded: Set<Seq<char>>) -> bool {
    let header = is_header(line);
    let kind = kind_of(e.in_hunk, header, line);
    let old_number = if kind == '-' || kind == ' ' {
        padded(e.old as nat)
    } else {
        blank_number()
    };
    let new_number = if kind == '+' || kind == ' ' {
        padded(e.new as nat)
    } else {
        blank_number()
    };
    let is_folded = folded.contains(e.hunk);
    let text = shown_text(line, is_folded);
    let content = if kind == '+' || kind == '-' || kind == ' ' {
        text.drop_first()
    } else {
        text
    };
    &&& out.flush == !(kind == '+' || kind == '-')
    &&& (starts_with(line, "@@ "@) ==> (out.hunk matches Some(h) && h.0@ == e.hunk && h.1@ == e.file
        + " · "@ + line))
    &&& (!starts_with(line, "@@ "@) ==> out.hunk is None)
    &&& out.shown == !((e.in_hunk && !header && is_folded) || (kind == ' ' && !context))
    &&& out.tag == tag_of(kind, header)
    &&& out.unified@ == old_number + seq![' '] + new_number + " │ "@ + text + seq!['\n']
    &&& ((kind == '+' || kind == '-' || kind == ' ') && text.len() == 0 ==> out.split is None)
    &&& (kind == '-' && text.len() > 0 ==> (out.split matches Some(SplitRow::Removed(r)) && r@
        == old_number + " │ "@ + content + seq!['\n']))
    &&& (kind == '+' && text.len() > 0 ==> (out.split matches Some(SplitRow::Added(r)) && r@
        == new_number + " │ "@ + content + seq!['\n']))
    &&& (kind == ' ' && text.len() > 0 ==> (out.split matches Some(SplitRow::Both(a, b)) && a@
        == old_number + " │ "@ + content + seq!['\n'] && b@ == new_number + " │ "@ + content + seq![
        '\n']))
    &&& (kind != '-' && kind != '+' && kind != ' ' ==> (out.split matches Some(SplitRow::Both(a, b))
        && a@ == old_number + " │ "@ + content + seq!['\n'] && b@ == new_number + " │ "@ + content
        + seq!['\n']))
}

/// The kind of `line` read in a state inside (`in_hunk`) or outside a hunk.
fn line_kind(in_hunk: bool, line: &str) -> (r: (char, bool))
    ensures
        r.1 == is_header(line@),
        r.0 == kind_of(in_hunk, is_header(line@), line@),
{
    let chars = chars_of(line);
    let header = begins_with(&chars, &chars_of("@@")) || begins_with(&chars, &chars_of("diff --git"));
    let kind: char = if in_hunk && !header {
        if chars.len() > 0 {
            chars[0]
        } else {
            ' '
        }
    } else {
        '\0'
    };
    (kind, header)
}

/// A line number in five columns, or five spaces when the side has none.
fn number_text(n: u64, counts: bool) -> (r: String)
    ensures
        counts ==> r@ == padded(n as nat),
        !counts ==> r@ == blank_number(),
{
    let mut s = String::new();
    if counts {
        push_padded(&mut s, n);
    } else {
        push_text(&mut s, "     ");
        proof {
            reveal_strlit("     ");
        }
    }
    s
}

fn build_out(e: &PatchState, line: &str, context: bool, folded: &FoldSet) -> (out: LineOut)
    ensures
        line_out_of(out, e.view_of(), line@, context, folded@),
{
    let (kind, header) = line_kind(e.in_hunk, line);
    let old_number = number_text(e.old, kind == '-' || kind == ' ');
    let new_number = number_text(e.new, kind == '+' || kind == ' ');
    let chars = chars_of(line);
    let starts_hunk = begins_with(&chars, &chars_of("@@ "));
    let is_folded = folded.contains(e.hunk.as_str());
    let hunk = if starts_hunk {
        let mut label = owned(e.file.as_str());
        push_text(&mut label, " · ");
        push_text(&mut label, line);
        Some((owned(e.hunk.as_str()), label))
    } else {
        None
    };
    let shown = !((e.in_hunk && !header && is_folded) || (kind == ' ' && !context));
    let mut text = owned(line);
    if starts_hunk && is_folded {
        push_text(&mut text, "  [collapsed]");
    }
    let tag = if kind == '+' {
        RowTag::Added
    } else if kind == '-' {
        RowTag::Removed
    } else if header {
        RowTag::Header
    } else {
        RowTag::Plain
    };
    let mut unified = owned(old_number.as_str());
    push_char(&mut unified, ' ');
    push_text(&mut unified, new_number.as_str());
    push_text(&mut unified, " │ ");
    push_text(&mut unified, text.as_str());
    push_char(&mut unified, '\n');
    let split = split_rows(kind, text.as_str(), old_number.as_str(), new_number.as_str());
    let out = LineOut { flush: !(kind == '+' || kind == '-'), hunk, shown, tag, unified, split };
    proof {
        let v = e.view_of();
        assert(is_folded == folded@.contains(v.hunk));
        assert(text@ == shown_text(line@, is_folded));
        assert(out.flush == !(kind == '+' || kind == '-'));
        assert(starts_with(line@, "@@ "@) ==> (out.hunk matches Some(h) && h.0@ == v.hunk && h.1@ == v.file
            + " · "@ + line@));
        assert(out.shown == !((v.in_hunk && !header && is_folded) || (kind == ' ' && !context)));
        assert(out.tag == tag_of(kind, header));
        let on = if kind == '-' || kind == ' ' {
            padded(v.old as nat)
        } else {
            blank_number()
        };
        let nn = if kind == '+' || kind == ' ' {
            padded(v.new as nat)
        } else {
            blank_number()
        };
        assert(old_number@ == on);
        assert(new_number@ == nn);
        assert(out.unified@ == on + seq![' '] + nn + " │ "@ + text@ + seq!['\n']);
    }
    out
}

fn split_rows(kind: char, text: &str, old_number: &str, new_number: &str) -> (r: Option<SplitRow>)
    ensures
        ({
            let marked = kind == '+' || kind == '-' || kind == ' ';
            let content = if marked {
                text@.drop_first()
            } else {
                text@
            };
            &&& (marked && text@.len() == 0 ==> r is None)
            &&& (kind == '-' && text@.len() > 0 ==> (r matches Some(SplitRow::Removed(x)) && x@
                == old_number@ + " │ "@ + content + seq!['\n']))
            &&& (kind == '+' && text@.len() > 0 ==> (r matches Some(SplitRow::Added(x)) && x@
                == new_number@ + " │ "@ + content + seq!['\n']))
            &&& (kind == ' ' && text@.len() > 0 ==> (r matches Some(SplitRow::Both(a, b)) && a@
                == old_number@ + " │ "@ + content + seq!['\n'] && b@ == new_number@ + " │ "@
                + content + seq!['\n']))
            &&& (!marked ==> (r matches Some(SplitRow::Both(a, b)) && a@ == old_number@ + " │ "@
                + content + seq!['\n'] && b@ == new_number@ + " │ "@ + content + seq!['\n']))
        }),
{
    let text_chars = chars_of(text);
    let marked = kind == '+' || kind == '-' || kind == ' ';
    if marked && text_chars.len() == 0 {
        return None;
    }
    let content: Vec<char> = if marked {
        let mut c: Vec<char> = Vec::new();
        let mut k: usize = 1;
        while k < text_chars.len()
            invariant
                1 <= k <= text_chars@.len(),
                c@ == text_chars@.subrange(1, k as int),
            decreases text_chars@.len() - k,
        {
            c.push(text_chars[k]);
            k = k + 1;
        }
        assert(c@ == text_chars@.drop_first());
        c
    } else {
        text_chars
    };
    let content_text = string_from(&content);
    if kind == '-' {
        Some(SplitRow::Removed(side_row(old_number, content_text.as_str())))
    } else if kind == '+' {
        Some(SplitRow::Added(side_row(new_number, content_text.as_str())))
    } else {
        Some(
            SplitRow::Both(
                side_row(old_number, content_text.as_str()),
                side_row(new_number, content_text.as_str()),
            ),
        )
    }
}

/// The unified row of a line with no line number on either side.
proof fn lemma_unnumbered_row(out: LineOut, e: PatchView, line: Seq<char>, context: bool, folded: Set<Seq<char>>)
    requires
        line_out_of(out, e, line, context, folded),
        kind_of(e.in_hunk, is_header(line), line) == '\0',
        !starts_with(line, "@@ "@),
    ensures
        out.flush,
        out.tag == RowTag::Plain || out.tag == RowTag::Header,
        out.unified@ == seq![' ', ' ', ' ', ' ', ' '] + seq![' '] + seq![' ', ' ', ' ', ' ', ' '] + " │ "@
            + line + seq!['\n'],
{
}

/// A `diff --git` line starts a new file and leaves any hunk: the state
/// after it is outside a hunk, and its row is a header row with no line
/// numbers that writes out the held-back rows first.
pub proof fn file_header_leaves_the_hunk(
    s: PatchView,
    line: Seq<char>,
    context: bool,
    folded: Set<Seq<char>>,
    out: LineOut,
)
    requires
        starts_with(line, "diff --git"@),
    ensures
        !enter_line(s, line).in_hunk,
        !after_line(s, line).in_hunk,
        line_out_of(out, enter_line(s, line), line, context, folded) ==> {
            &&& out.flush
            &&& out.tag == RowTag::Header
            &&& out.unified@ == seq![' ', ' ', ' ', ' ', ' '] + seq![' '] + seq![' ', ' ', ' ', ' ', ' ']
                + " │ "@ + line + seq!['\n']
        },
{
    reveal_strlit("diff --git");
    reveal_strlit("+++ b/");
    reveal_strlit("@@ ");
    reveal_strlit("@@");
    assert(line.take(10) == "diff --git"@);
    assert(line.take(10)[0] == line[0]);
    assert(line[0] == 'd');
    if starts_with(line, "+++ b/"@) {
        assert(line.take(6)[0] == line[0]);
    }
    if starts_with(line, "@@ "@) {
        assert(line.take(3)[0] == line[0]);
    }
    assert(!starts_with(line, "+++ b/"@));
    assert(!starts_with(line, "@@ "@));
    assert(is_header(line));
    if line_out_of(out, enter_line(s, line), line, context, folded) {
        lemma_unnumbered_row(out, enter_line(s, line), line, context, folded);
    }
}

/// Outside a hunk, every line up to the next `@@ ` line is read without
/// line numbers: the state stays outside the hunk with its numbers
/// unchanged, and the line's row is neither added nor removed, carries no
/// numbers and writes out the held-back rows first.
pub proof fn outside_a_hunk_lines_are_unnumbered(
    s: PatchView,
    line: Seq<char>,
    context: bool,
    folded: Set<Seq<char>>,
    out: LineOut,
)
    requires
        !s.in_hunk,
        !starts_with(line, "@@ "@),
    ensures
        !after_line(s, line).in_hunk,
        after_line(s, line).old == s.old,
        after_line(s, line).new == s.new,
        line_out_of(out, enter_line(s, line), line, context, folded) ==> {
            &&& out.flush
            &&& out.tag != RowTag::Added
            &&& out.tag != RowTag::Removed
            &&& out.unified@ == seq![' ', ' ', ' ', ' ', ' '] + seq![' '] + seq![' ', ' ', ' ', ' ', ' ']
                + " │ "@ + line + seq!['\n']
        },
{
    if line_out_of(out, enter_line(s, line), line, context, folded) {
        lemma_unnumbered_row(out, enter_line(s, line), line, context, folded);
    }
}

/// Reads one line of the diff: updates the state (see `after_line`) and
/// says what the views do with the line (see `line_out_of`).  `context`:
/// unchanged lines show; `folded`: the hunks folded away.
pub fn patch_step(state: &mut PatchState, line: &str, context: bool, folded: &FoldSet) -> (out:
    LineOut)
    requires
        numbers_fit(old(state).view_of(), line@),
    ensures
        final(state).view_of() == after_line(old(state).view_of(), line@),
        line_out_of(out, enter_line(old(state).view_of(), line@), line@, context, folded@),
{
    enter(state, line);
    let out = build_out(state, line, context, folded);
    let (kind, header) = line_kind(state.in_hunk, line);
    if kind == '-' || kind == ' ' {
        state.old = state.old + 1;
    }
    if kind == '+' || kind == ' ' {
        state.new = state.new + 1;
    }
    out
}

/// A drop-down position read as an `i32` (`as i32`): positions above
/// `i32::MAX`, such as the "nothing selected" value `u32::MAX`, wrap to
/// negative numbers.
pub open spec fn as_signed(selected: u32) -> int {
    if selected <= i32::MAX {
        selected as int
    } else {
        selected as int - 0x1_0000_0000
    }
}

/// The hunk the previous (`-1`) or next (`1`) button selects among `len`
/// hunks: the current position read as an `i32`, plus the direction,
/// wrapped around into `0..len` (Euclidean remainder).
pub fn hunk_step(selected: u32, direction: i32, len: usize) -> (r: usize)
    requires
        0 < len <= i32::MAX,
        direction == -1 || direction == 1,
        as_signed(selected) + direction <= i32::MAX,
    ensures
        r as int == (as_signed(selected) + direction as int) % (len as int),
{
    let s: i64 = if selected <= 2147483647u32 {
        selected as i64
    } else {
        selected as i64 - 4294967296i64
    };
    let t: i64 = s + direction as i64;
    let l: i64 = len as i64;
    assert(t == as_signed(selected) + direction as int);
    if t >= 0 {
        let m: i64 = t % l;
        proof {
            vstd::arithmetic::div_mod::lemma_fundamental_div_mod(t as int, l as int);
        }
        assert(m as int == (t as int) % (l as int));
        m as usize
    } else {
        let a: i64 = -t - 1;
        let k: i64 = a / l;
        let q: i64 = a % l;
        proof {
            vstd::arithmetic::div_mod::lemma_fundamental_div_mod(a as int, l as int);
            assert(0 <= q < l);
            assert(a as int == (l as int) * (k as int) + (q as int));
            assert(t == (-k - 1) * l + (l - 1 - q)) by (nonlinear_arith)
                requires
                    a == l * k + q,
                    a == -t - 1,
            ;
            vstd::arithmetic::div_mod::lemma_fundamental_div_mod_converse(
                t as int,
                l as int,
                (-k - 1) as int,
                (l - 1 - q) as int,
            );
        }
        (l - 1 - q) as usize
    }
}

/// The label of the fold button: `Reveal` on a folded hunk, else
/// `Collapse`.
pub fn fold_label(folded: bool) -> (r: &'static str)
    ensures
        folded ==> r@ == "Reveal"@,
        !folded ==> r@ == "Collapse"@,
{
    if folded {
        "Reveal"
    } else {
        "Collapse"
    }
}

} // verus!
