//! The saved layout of the details view's columns.
//!
//! The file starts with the line `# columns-v2`; each further line is
//! `width TAB visible TAB expands TAB title`, with the flags written `1` or
//! `0`, in view order.  An older format listed the titles of hidden columns,
//! one per line.

use vstd::prelude::*;

use crate::lines::{digits_value, four_fields, i32_text, is_digit, lines_from, lines_of, next_of, parse_i32, split_four, split_lines};
use crate::text::{begins_with, chars_of, decimal, digit_char, push_char, push_signed, push_text, same_text, signed_decimal, starts_with};

verus! {

/// The first line of a saved layout.
pub open spec fn layout_header() -> Seq<char> {
    seq!['#', ' ', 'c', 'o', 'l', 'u', 'm', 'n', 's', '-', 'v', '2']
}

/// What can be set on a column.
#[derive(Clone, Copy, PartialEq, Eq, Structural, Debug)]
pub struct ColumnState {
    pub width: i32,
    pub visible: bool,
    pub expand: bool,
}

/// A column as the layout file records it.
pub struct SavedColumn {
    pub width: i32,
    pub visible: bool,
    pub expand: bool,
    pub title: String,
}

/// `1` or `0`.
pub open spec fn flag_text(b: bool) -> Seq<char> {
    if b {
        seq!['1']
    } else {
        seq!['0']
    }
}

/// The line of one column, without its line break.
pub open spec fn column_line(width: i32, visible: bool, expand: bool, title: Seq<char>) -> Seq<char> {
    signed_decimal(width as int) + seq!['\t'] + flag_text(visible) + seq!['\t'] + flag_text(expand)
        + seq!['\t'] + title
}

/// The lines of `columns` from the `k`-th on, each ended by a line break.
pub open spec fn layout_body(columns: Seq<SavedColumn>, k: int) -> Seq<char>
    decreases columns.len() - k,
{
    if k < 0 || k >= columns.len() {
        seq![]
    } else {
        column_line(columns[k].width, columns[k].visible, columns[k].expand, columns[k].title@)
            + seq!['\n'] + layout_body(columns, k + 1)
    }
}

/// The whole saved layout of `columns`.
pub open spec fn layout_of(columns: Seq<SavedColumn>) -> Seq<char> {
    layout_header() + seq!['\n'] + layout_body(columns, 0)
}

fn push_flag(s: &mut String, b: bool)
    ensures
        final(s)@ == old(s)@ + flag_text(b),
{
    if b {
        push_char(s, '1');
    } else {
        push_char(s, '0');
    }
    assert(seq!['1'] == seq!['1']);
}

/// The text of the saved layout of `columns`, in view order.
pub fn layout_text(columns: &Vec<SavedColumn>) -> (s: String)
    ensures
        s@ == layout_of(columns@),
{
    let mut s = String::new();
    push_text(&mut s, "# columns-v2\n");
    proof {
        reveal_strlit("# columns-v2\n");
        assert(s@ == layout_header() + seq!['\n']);
    }
    let n = columns.len();
    for k in 0..n
        invariant
            n == columns@.len(),
            s@ + layout_body(columns@, k as int) == layout_of(columns@),
    {
        let ghost before = s@;
        let c = &columns[k];
        push_signed(&mut s, c.width as i64);
        push_char(&mut s, '\t');
        push_flag(&mut s, c.visible);
        push_char(&mut s, '\t');
        push_flag(&mut s, c.expand);
        push_char(&mut s, '\t');
        push_text(&mut s, c.title.as_str());
        push_char(&mut s, '\n');
        proof {
            assert(s@ == before + (column_line(c.width, c.visible, c.expand, c.title@) + seq!['\n']));
            assert(layout_body(columns@, k as int) == column_line(c.width, c.visible, c.expand, c.title@)
                + seq!['\n'] + layout_body(columns@, k + 1));
        }
    }
    proof {
        assert(s@ + Seq::<char>::empty() == s@);
    }
    s
}

/// `width` limited to `-1 ..= 10000`.
pub open spec fn clamp_width(width: i32) -> i32 {
    if width < -1 {
        -1i32
    } else if width > 10000 {
        10000i32
    } else {
        width
    }
}

/// The index of the first title equal to `t`.
pub open spec fn title_index(titles: Seq<Seq<char>>, t: Seq<char>, i: int) -> Option<int>
    decreases titles.len() - i,
{
    if i < 0 || i >= titles.len() {
        None
    } else if titles[i] == t {
        Some(i)
    } else {
        title_index(titles, t, i + 1)
    }
}

proof fn lemma_title_index(titles: Seq<Seq<char>>, t: Seq<char>, i: int)
    requires
        0 <= i,
    ensures
        match title_index(titles, t, i) {
            Some(j) => i <= j < titles.len() && titles[j] == t,
            None => true,
        },
    decreases titles.len() - i,
{
    if i < titles.len() && titles[i] != t {
        lemma_title_index(titles, t, i + 1);
    }
}

/// The first position of `x` in `order`.
pub open spec fn place_of(order: Seq<usize>, x: usize, i: int) -> int
    decreases order.len() - i,
{
    if i < 0 || i >= order.len() {
        order.len() as int
    } else if order[i] == x {
        i
    } else {
        place_of(order, x, i + 1)
    }
}

/// `order` with column `c` taken out and put back at `position`, or at the
/// end when `position` is past it.
pub open spec fn moved(order: Seq<usize>, c: usize, position: int) -> Seq<usize> {
    let rest = order.remove(place_of(order, c, 0));
    let at = if position < rest.len() {
        position
    } else {
        rest.len() as int
    };
    rest.insert(at, c)
}

/// One saved line applied to the columns: `states` by column, `order` the
/// view order.  A line that is not four fields, or names no column, changes
/// nothing; otherwise the width is set when it parses (limited), the column
/// is shown when the line says so or it is the first column, its expansion
/// is set, and it moves to `position`.
pub open spec fn apply_line(
    titles: Seq<Seq<char>>,
    states: Seq<ColumnState>,
    order: Seq<usize>,
    position: int,
    line: Seq<char>,
) -> (Seq<ColumnState>, Seq<usize>) {
    match four_fields(line) {
        None => (states, order),
        Some(f) => match title_index(titles, f.3, 0) {
            None => (states, order),
            Some(c) => {
                let width = match i32_text(f.0) {
                    Some(w) => clamp_width(w),
                    None => states[c].width,
                };
                let state = ColumnState {
                    width,
                    visible: c == 0 || f.1 == seq!['1'],
                    expand: f.2 == seq!['1'],
                };
                (states.update(c, state), moved(order, c as usize, position))
            },
        },
    }
}

/// The saved lines from the `k`-th on applied in turn; line `k` moves its
/// column to position `k`.
pub open spec fn apply_lines(
    titles: Seq<Seq<char>>,
    states: Seq<ColumnState>,
    order: Seq<usize>,
    lines: Seq<Seq<char>>,
    k: int,
) -> (Seq<ColumnState>, Seq<usize>)
    decreases lines.len() - k,
{
    if k < 0 || k >= lines.len() {
        (states, order)
    } else {
        let next = apply_line(titles, states, order, k, lines[k]);
        apply_lines(titles, next.0, next.1, lines, k + 1)
    }
}

/// The columns after restoring a saved layout written in the current
/// format: the lines after the first, applied in turn to the columns in
/// their initial order `0, 1, ...`.
pub open spec fn restored(saved: Seq<char>, titles: Seq<Seq<char>>, states: Seq<ColumnState>) -> (
    Seq<ColumnState>,
    Seq<usize>,
) {
    apply_lines(
        titles,
        states,
        Seq::new(titles.len(), |i: int| i as usize),
        lines_of(saved).skip(1),
        0,
    )
}

/// Whether `saved` is in the current format.
pub open spec fn is_current_layout(saved: Seq<char>) -> bool {
    starts_with(saved, layout_header() + seq!['\n'])
}

/// Visibility after reading a layout in the older format: the first column
/// always shows; another shows when it showed by default and its title is
/// not among the saved lines.
pub open spec fn legacy_visible(saved: Seq<char>, title: Seq<char>, index: int, shown: bool) -> bool {
    index == 0 || (shown && !lines_of(saved).contains(title))
}

/// The views of a list of titles.
pub open spec fn title_views(titles: Seq<String>) -> Seq<Seq<char>> {
    titles.map_values(|t: String| t@)
}

fn find_title(titles: &Vec<Vec<char>>, t: &[char]) -> (r: Option<usize>)
    ensures
        match title_index(titles@.map_values(|x: Vec<char>| x@), t@, 0) {
            Some(i) => r == Some(i as usize),
            None => r is None,
        },
{
    let ghost views = titles@.map_values(|x: Vec<char>| x@);
    let mut i: usize = 0;
    while i < titles.len()
        invariant
            i <= titles@.len(),
            views == titles@.map_values(|x: Vec<char>| x@),
            title_index(views, t@, 0) == title_index(views, t@, i as int),
        decreases titles@.len() - i,
    {
        if same_text(&titles[i], t) {
            assert(views[i as int] == titles@[i as int]@);
            return Some(i);
        }
        assert(views[i as int] == titles@[i as int]@);
        i = i + 1;
    }
    None
}

proof fn lemma_place_of(order: Seq<usize>, x: usize, i: int)
    requires
        0 <= i <= order.len(),
    ensures
        i <= place_of(order, x, i) <= order.len(),
        place_of(order, x, i) < order.len() ==> order[place_of(order, x, i)] == x,
        forall|j: int| i <= j < place_of(order, x, i) ==> order[j] != x,
    decreases order.len() - i,
{
    if i < order.len() && order[i] != x {
        lemma_place_of(order, x, i + 1);
    }
}

/// Moves column `c` to `position` in `order` (see `moved`).
fn move_column(order: &mut Vec<usize>, c: usize, position: usize)
    requires
        old(order)@.contains(c),
    ensures
        final(order)@ == moved(old(order)@, c, position as int),
{
    let ghost o = order@;
    let mut i: usize = 0;
    while i < order.len() && order[i] != c
        invariant
            order@ == o,
            i <= o.len(),
            place_of(o, c, 0) == place_of(o, c, i as int),
        decreases o.len() - i,
    {
        i = i + 1;
    }
    proof {
        lemma_place_of(o, c, 0);
        if i == o.len() {
            let k = choose|k: int| 0 <= k < o.len() && o[k] == c;
            assert(o[k] != c);
        }
    }
    order.remove(i);
    let at = if position < order.len() {
        position
    } else {
        order.len()
    };
    order.insert(at, c);
}

/// Every column appears in `order` exactly once.
pub open spec fn is_order_of(order: Seq<usize>, n: nat) -> bool {
    &&& order.len() == n
    &&& forall|c: usize| c < n ==> order.contains(c)
}

proof fn lemma_moved_keeps(order: Seq<usize>, c: usize, position: int, n: nat)
    requires
        is_order_of(order, n),
        c < n,
        0 <= position,
    ensures
        is_order_of(moved(order, c, position), n),
{
    lemma_place_of(order, c, 0);
    let p = place_of(order, c, 0);
    assert(order.contains(c));
    if p == order.len() {
        let k = choose|k: int| 0 <= k < order.len() && order[k] == c;
        assert(order[k] != c);
    }
    assert(p < order.len());
    let rest = order.remove(p);
    let at = if position < rest.len() {
        position
    } else {
        rest.len() as int
    };
    let m = rest.insert(at, c);
    assert forall|x: usize| x < n implies m.contains(x) by {
        if x == c {
            assert(m[at] == c);
        } else {
            assert(order.contains(x));
            let k = choose|k: int| 0 <= k < order.len() && order[k] == x;
            assert(k != p);
            let kr = if k < p {
                k
            } else {
                k - 1
            };
            assert(rest[kr] == x);
            if kr < at {
                assert(m[kr] == x);
            } else {
                assert(m[kr + 1] == x);
            }
        }
    }
}

/// Reads a saved layout into the columns.
///
/// `titles`, `defaults`: the columns' titles and their default states, in
/// their initial order.  In the current format the lines after the first
/// are applied in turn (see `apply_line`); the result holds each column's
/// state and the new view order.  In the older format the order stays and
/// only visibility changes (see `legacy_visible`).
pub fn restore_layout(saved: &str, titles: &Vec<String>, defaults: &Vec<ColumnState>) -> (r: (
    Vec<ColumnState>,
    Vec<usize>,
))
    requires
        defaults@.len() == titles@.len(),
    ensures
        is_current_layout(saved@) ==> (r.0@, r.1@) == restored(saved@, title_views(titles@), defaults@),
        !is_current_layout(saved@) ==> {
            &&& r.1@ == Seq::new(titles@.len(), |i: int| i as usize)
            &&& r.0@.len() == defaults@.len()
            &&& forall|i: int|
                0 <= i < defaults@.len() ==> #[trigger] r.0@[i] == (ColumnState {
                    visible: legacy_visible(saved@, titles@[i]@, i, defaults@[i].visible),
                    ..defaults@[i]
                })
        },
{
    let n = titles.len();
    let mut names: Vec<Vec<char>> = Vec::new();
    for k in 0..n
        invariant
            n == titles@.len(),
            names@.len() == k,
            forall|m: int| 0 <= m < k ==> #[trigger] names@[m]@ == titles@[m]@,
    {
        names.push(chars_of(titles[k].as_str()));
    }
    let ghost views = title_views(titles@);
    assert(names@.map_values(|x: Vec<char>| x@) == views);
    let mut order: Vec<usize> = Vec::new();
    for k in 0..n
        invariant
            n == titles@.len(),
            order@ == Seq::new(k as nat, |i: int| i as usize),
    {
        order.push(k);
    }
    let mut states: Vec<ColumnState> = Vec::new();
    for k in 0..n
        invariant
            n == defaults@.len(),
            states@ == defaults@.take(k as int),
    {
        states.push(defaults[k]);
    }
    assert(defaults@.take(n as int) == defaults@);
    let text = chars_of(saved);
    let lines = split_lines(&text);
    let ghost line_views = lines@.map_values(|l: Vec<char>| l@);
    let header: Vec<char> = chars_of("# columns-v2\n");
    proof {
        reveal_strlit("# columns-v2\n");
        assert(header@ == layout_header() + seq!['\n']);
    }
    if !begins_with(&text, &header) {
        let mut k: usize = 0;
        while k < n
            invariant
                n == titles@.len(),
                n == defaults@.len(),
                names@.map_values(|x: Vec<char>| x@) == views,
                names@.len() == n,
                views == title_views(titles@),
                line_views == lines_of(saved@),
                line_views == lines@.map_values(|l: Vec<char>| l@),
                states@.len() == n,
                forall|i: int|
                    0 <= i < k ==> #[trigger] states@[i] == (ColumnState {
                        visible: legacy_visible(saved@, titles@[i]@, i, defaults@[i].visible),
                        ..defaults@[i]
                    }),
                forall|i: int| k <= i < n ==> #[trigger] states@[i] == defaults@[i],
            decreases n - k,
        {
            let mut listed = false;
            let mut j: usize = 0;
            while j < lines.len()
                invariant
                    k < n,
                    line_views == lines@.map_values(|l: Vec<char>| l@),
                    names@.map_values(|x: Vec<char>| x@) == views,
                    names@.len() == n,
                    j <= lines@.len(),
                    listed == line_views.take(j as int).contains(views[k as int]),
                decreases lines@.len() - j,
            {
                let same = same_text(&lines[j], &names[k]);
                proof {
                    let v = views[k as int];
                    assert(line_views[j as int] == lines@[j as int]@);
                    assert(v == names@[k as int]@);
                    let before = line_views.take(j as int);
                    let after = line_views.take(j + 1);
                    assert(after == before.push(line_views[j as int]));
                    if same {
                        assert(after[j as int] == v);
                    } else if listed {
                        let w = choose|w: int| 0 <= w < before.len() && before[w] == v;
                        assert(after[w] == v);
                    } else if after.contains(v) {
                        let w = choose|w: int| 0 <= w < after.len() && after[w] == v;
                        assert(before[w] == v);
                    }
                }
                listed = listed || same;
                j = j + 1;
            }
            proof {
                assert(line_views.take(lines@.len() as int) == line_views);
                assert(views[k as int] == titles@[k as int]@);
            }
            let d = defaults[k];
            let shown = k == 0 || (d.visible && !listed);
            states.set(k, ColumnState { visible: shown, ..d });
            k = k + 1;
        }
        return (states, order);
    }
    proof {
        assert(order@ == Seq::new(titles@.len(), |i: int| i as usize));
        assert forall|c: usize| c < n implies order@.contains(c) by {
            assert(order@[c as int] == c);
        }
        crate::lines::lemma_next_of_bounds(saved@, 0, '\n');
        assert(line_views.len() > 0);
    }
    let m = lines.len();
    let mut k: usize = 1;
    while k < m
        invariant
            n == titles@.len(),
            m == lines@.len(),
            1 <= k,
            names@.map_values(|x: Vec<char>| x@) == views,
            views.len() == n,
            line_views == lines@.map_values(|l: Vec<char>| l@),
            states@.len() == n,
            is_order_of(order@, n as nat),
            apply_lines(views, states@, order@, line_views.skip(1), k - 1) == restored(saved@, views, defaults@),
        decreases m - k,
    {
        let ghost before = (states@, order@);
        let position = k - 1;
        match split_four(&lines[k]) {
            None => {},
            Some(fields) => {
                match find_title(&names, &fields.3) {
                    None => {},
                    Some(c) => {
                        proof {
                            lemma_title_index(views, fields.3@, 0);
                        }
                        let width = match parse_i32(&fields.0) {
                            Some(w) => if w < -1 {
                                -1
                            } else if w > 10000 {
                                10000
                            } else {
                                w
                            },
                            None => states[c].width,
                        };
                        let one: Vec<char> = vec!['1'];
                        assert(one@ == seq!['1']);
                        let visible = c == 0 || same_text(&fields.1, &one);
                        let expand = same_text(&fields.2, &one);
                        states.set(c, ColumnState { width, visible, expand });
                        proof {
                            lemma_moved_keeps(order@, c, position as int, n as nat);
                        }
                        move_column(&mut order, c, position);
                        proof {
                            let f = four_fields(line_views.skip(1)[position as int]).unwrap();
                            assert(f == (fields.0@, fields.1@, fields.2@, fields.3@));
                            assert(title_index(views, f.3, 0) == Some(c as int));
                        }
                    },
                }
            },
        }
        proof {
            assert(line_views.skip(1)[position as int] == lines@[k as int]@);
            assert(line_views[k as int] == lines@[k as int]@);
            assert((states@, order@) == apply_line(views, before.0, before.1, position as int, line_views.skip(1)[position as int]));
        }
        k = k + 1;
    }
    proof {
        assert(line_views.skip(1).len() <= k - 1);
    }
    (states, order)
}

proof fn lemma_next_of_at(s: Seq<char>, i: int, j: int, c: char)
    requires
        0 <= i <= j <= s.len(),
        forall|k: int| i <= k < j ==> s[k] != c,
        j == s.len() || s[j] == c,
    ensures
        next_of(s, i, c) == j,
    decreases j - i,
{
    if i < j {
        lemma_next_of_at(s, i + 1, j, c);
    }
}

proof fn lemma_digit_value(d: nat)
    requires
        d < 10,
    ensures
        is_digit(digit_char(d)),
        (digit_char(d) as u32 - '0' as u32) as nat == d,
{
}

proof fn lemma_decimal_digits(n: nat)
    ensures
        decimal(n).len() > 0,
        forall|k: int| 0 <= k < decimal(n).len() ==> is_digit(#[trigger] decimal(n)[k]),
        digits_value(decimal(n)) == n,
    decreases n,
{
    lemma_digit_value(n % 10);
    if n < 10 {
        assert(decimal(n) == seq![digit_char(n)]);
        assert(decimal(n).drop_last() == Seq::<char>::empty());
        assert(decimal(n).last() == digit_char(n));
        assert(digits_value(Seq::<char>::empty()) == 0);
        assert(digits_value(decimal(n)) == digits_value(decimal(n).drop_last()) * 10 + (
        (decimal(n).last() as u32 - '0' as u32) as nat));
    }
    if n >= 10 {
        lemma_decimal_digits(n / 10);
        let d = decimal(n / 10);
        let s = decimal(n);
        assert(s == d.push(digit_char(n % 10)));
        assert(s.drop_last() == d);
        assert(s.last() == digit_char(n % 10));
        assert(digits_value(s) == digits_value(d) * 10 + ((s.last() as u32 - '0' as u32) as nat));
        assert(n == (n / 10) * 10 + n % 10);
        assert forall|k: int| 0 <= k < s.len() implies is_digit(#[trigger] s[k]) by {
            if k < d.len() {
                assert(s[k] == d[k]);
            }
        }
    }
}

proof fn lemma_signed_decimal_reads_back(w: i32)
    ensures
        i32_text(signed_decimal(w as int)) == Some(w),
        forall|k: int| 0 <= k < signed_decimal(w as int).len() ==> {
            let c = #[trigger] signed_decimal(w as int)[k];
            c != '\t' && c != '\n' && c != '\r'
        },
{
    let sd = signed_decimal(w as int);
    if w < 0 {
        let d = decimal((-w) as nat);
        lemma_decimal_digits((-w) as nat);
        assert(sd == seq!['-'] + d);
        assert(sd.drop_first() == d);
        assert forall|k: int| 0 <= k < sd.len() implies {
            let c = #[trigger] sd[k];
            c != '\t' && c != '\n' && c != '\r'
        } by {
            if k > 0 {
                assert(sd[k] == d[k - 1]);
                assert(is_digit(d[k - 1]));
            }
        }
    } else {
        let d = decimal(w as nat);
        lemma_decimal_digits(w as nat);
        assert(sd == d);
        assert(is_digit(d[0]));
        assert forall|k: int| 0 <= k < sd.len() implies {
            let c = #[trigger] sd[k];
            c != '\t' && c != '\n' && c != '\r'
        } by {
            assert(is_digit(d[k]));
        }
    }
}

/// The four fields of a column's line read back as the width's text, the
/// two flags and the title.
proof fn lemma_column_fields(width: i32, visible: bool, expand: bool, title: Seq<char>)
    ensures
        four_fields(column_line(width, visible, expand, title)) == Some(
            (signed_decimal(width as int), flag_text(visible), flag_text(expand), title),
        ),
{
    let w = signed_decimal(width as int);
    let v = flag_text(visible);
    let e = flag_text(expand);
    let line = column_line(width, visible, expand, title);
    lemma_signed_decimal_reads_back(width);
    let t1 = w.len() as int;
    let t2 = t1 + 2;
    let t3 = t2 + 2;
    assert(line == w + seq!['\t'] + v + seq!['\t'] + e + seq!['\t'] + title);
    assert forall|k: int| 0 <= k < t1 implies line[k] != '\t' by {
        assert(line[k] == w[k]);
    }
    lemma_next_of_at(line, 0, t1, '\t');
    lemma_next_of_at(line, t1 + 1, t2, '\t');
    lemma_next_of_at(line, t2 + 1, t3, '\t');
    assert(line.subrange(0, t1) == w);
    assert(line.subrange(t1 + 1, t2) == v);
    assert(line.subrange(t2 + 1, t3) == e);
    assert(line.subrange(t3 + 1, line.len() as int) == title);
}

/// A title the layout file can hold: no line break in it, and no carriage
/// return at its end.
pub open spec fn storable_title(t: Seq<char>) -> bool {
    &&& forall|k: int| 0 <= k < t.len() ==> #[trigger] t[k] != '\n'
    &&& t.len() > 0 ==> t.last() != '\r'
}

/// The line of the `k`-th saved column.
pub open spec fn saved_line(columns: Seq<SavedColumn>, k: int) -> Seq<char> {
    column_line(columns[k].width, columns[k].visible, columns[k].expand, columns[k].title@)
}

proof fn lemma_body_lines(columns: Seq<SavedColumn>, prefix: Seq<char>, k: int)
    requires
        0 <= k <= columns.len(),
        forall|m: int| 0 <= m < columns.len() ==> storable_title(#[trigger] columns[m].title@),
    ensures
        lines_from(prefix + layout_body(columns, k), prefix.len() as int) == Seq::new(
            (columns.len() - k) as nat,
            |m: int| saved_line(columns, k + m),
        ),
    decreases columns.len() - k,
{
    let s = prefix + layout_body(columns, k);
    let i = prefix.len() as int;
    if k == columns.len() {
        assert(s.len() == i);
    } else {
        let line = saved_line(columns, k);
        let c = columns[k];
        lemma_signed_decimal_reads_back(c.width);
        let rest = layout_body(columns, k + 1);
        assert(layout_body(columns, k) == line + seq!['\n'] + rest);
        let next = prefix + line + seq!['\n'];
        assert(s == next + rest);
        let e = i + line.len();
        let w = signed_decimal(c.width as int);
        assert(line == w + seq!['\t'] + flag_text(c.visible) + seq!['\t'] + flag_text(c.expand) + seq![
            '\t'] + c.title@);
        assert forall|j: int| i <= j < e implies s[j] != '\n' by {
            assert(s[j] == line[j - i]);
            let q = j - i;
            if q < w.len() {
                assert(line[q] == w[q]);
            } else if q >= w.len() + 5 {
                assert(line[q] == c.title@[q - w.len() - 5]);
            }
        }
        assert(s[e] == '\n');
        lemma_next_of_at(s, i, e, '\n');
        assert(s.subrange(i, e) == line);
        if c.title@.len() > 0 {
            assert(line.last() == c.title@.last());
        } else {
            assert(line.last() == '\t');
        }
        lemma_body_lines(columns, next, k + 1);
        assert(next.len() == e + 1);
        assert(lines_from(s, i) == seq![line] + lines_from(s, e + 1));
        assert(seq![line] + Seq::new((columns.len() - k - 1) as nat, |m: int| saved_line(columns, k + 1 + m))
            == Seq::new((columns.len() - k) as nat, |m: int| saved_line(columns, k + m)));
    }
}

/// A saved layout reads back as written: its lines are the header, then
/// one line per column in order, each splitting into the column's width
/// (which parses back to the same number), visibility flag, expansion flag
/// and title.
pub proof fn saved_layout_reads_back(columns: Seq<SavedColumn>)
    requires
        forall|m: int| 0 <= m < columns.len() ==> storable_title(#[trigger] columns[m].title@),
    ensures
        is_current_layout(layout_of(columns)),
        lines_of(layout_of(columns)).skip(1) == Seq::new(
            columns.len(),
            |m: int| saved_line(columns, m),
        ),
        forall|m: int|
            0 <= m < columns.len() ==> four_fields(#[trigger] saved_line(columns, m)) == Some(
                (
                    signed_decimal(columns[m].width as int),
                    flag_text(columns[m].visible),
                    flag_text(columns[m].expand),
                    columns[m].title@,
                ),
            ),
        forall|m: int|
            0 <= m < columns.len() ==> i32_text(signed_decimal(#[trigger] columns[m].width as int))
                == Some(columns[m].width),
{
    let text = layout_of(columns);
    let head = layout_header() + seq!['\n'];
    assert(text == head + layout_body(columns, 0));
    assert(text.take(head.len() as int) == head);
    lemma_body_lines(columns, head, 0);
    assert forall|j: int| 0 <= j < 12 implies text[j] != '\n' by {
        assert(text[j] == layout_header()[j]);
    }
    lemma_next_of_at(text, 0, 12, '\n');
    assert(text.subrange(0, 12) == layout_header());
    assert(lines_of(text) == seq![layout_header()] + lines_from(text, 13));
    assert(lines_of(text).skip(1) == lines_from(text, 13));
    assert forall|m: int| 0 <= m < columns.len() implies four_fields(#[trigger] saved_line(columns, m))
        == Some(
        (
            signed_decimal(columns[m].width as int),
            flag_text(columns[m].visible),
            flag_text(columns[m].expand),
            columns[m].title@,
        ),
    ) by {
        lemma_column_fields(columns[m].width, columns[m].visible, columns[m].expand, columns[m].title@);
    }
    assert forall|m: int| 0 <= m < columns.len() implies i32_text(
        signed_decimal(#[trigger] columns[m].width as int),
    ) == Some(columns[m].width) by {
        lemma_signed_decimal_reads_back(columns[m].width);
    }
}

/// The column the `k`-th saved line names.
pub open spec fn named_column(columns: Seq<SavedColumn>, titles: Seq<Seq<char>>, k: int) -> int {
    match title_index(titles, columns[k].title@, 0) {
        Some(c) => c,
        None => -1,
    }
}

/// The state the `k`-th saved line gives its column.
pub open spec fn saved_state(columns: Seq<SavedColumn>, titles: Seq<Seq<char>>, k: int) -> ColumnState {
    ColumnState {
        width: clamp_width(columns[k].width),
        visible: named_column(columns, titles, k) == 0 || columns[k].visible,
        expand: columns[k].expand,
    }
}

proof fn lemma_move_to_front(order: Seq<usize>, prefix: Seq<usize>, c: usize, k: int, n: nat)
    requires
        is_order_of(order, n),
        c < n,
        0 <= k,
        k < n,
        order.take(k) == prefix,
        !prefix.contains(c),
    ensures
        moved(order, c, k).take(k + 1) == prefix.push(c),
{
    lemma_place_of(order, c, 0);
    let p = place_of(order, c, 0);
    assert(order.contains(c));
    if p == order.len() {
        let w = choose|w: int| 0 <= w < order.len() && order[w] == c;
        assert(order[w] != c);
    }
    if p < k {
        assert(prefix[p] == c);
    }
    let rest = order.remove(p);
    assert(rest.take(k) == prefix);
    let m = moved(order, c, k);
    assert(m == rest.insert(k, c));
    assert(m.take(k + 1) == prefix.push(c));
}

proof fn lemma_apply_saved(
    columns: Seq<SavedColumn>,
    titles: Seq<Seq<char>>,
    states: Seq<ColumnState>,
    order: Seq<usize>,
    k: int,
)
    requires
        0 <= k <= columns.len(),
        columns.len() <= titles.len(),
        titles.len() <= usize::MAX,
        states.len() == titles.len(),
        is_order_of(order, titles.len()),
        forall|m: int| 0 <= m < columns.len() ==> storable_title(#[trigger] columns[m].title@),
        forall|m: int| 0 <= m < columns.len() ==> #[trigger] named_column(columns, titles, m) >= 0,
        forall|i: int, j: int|
            0 <= i < j < columns.len() ==> columns[i].title@ != columns[j].title@,
        order.take(k) == Seq::new(k as nat, |j: int| named_column(columns, titles, j) as usize),
        forall|j: int|
            0 <= j < k ==> states[named_column(columns, titles, j)] == saved_state(columns, titles, j),
    ensures
        ({
            let r = apply_lines(
                titles,
                states,
                order,
                Seq::new(columns.len(), |m: int| saved_line(columns, m)),
                k,
            );
            &&& r.1.take(columns.len() as int) == Seq::new(
                columns.len(),
                |j: int| named_column(columns, titles, j) as usize,
            )
            &&& forall|j: int|
                0 <= j < columns.len() ==> #[trigger] r.0[named_column(columns, titles, j)]
                    == saved_state(columns, titles, j)
        }),
    decreases columns.len() - k,
{
    let lines = Seq::new(columns.len(), |m: int| saved_line(columns, m));
    let n = titles.len();
    if k < columns.len() {
        let c = named_column(columns, titles, k);
        assert(c >= 0);
        lemma_title_index(titles, columns[k].title@, 0);
        let cl = columns[k];
        lemma_column_fields(cl.width, cl.visible, cl.expand, cl.title@);
        lemma_signed_decimal_reads_back(cl.width);
        assert(lines[k] == saved_line(columns, k));
        let prefix = order.take(k);
        assert(!prefix.contains(c as usize)) by {
            if prefix.contains(c as usize) {
                let j = choose|j: int| 0 <= j < prefix.len() && prefix[j] == c as usize;
                let cj = named_column(columns, titles, j);
                assert(cj >= 0);
                lemma_title_index(titles, columns[j].title@, 0);
                assert(prefix[j] == cj as usize);
                assert(cj == c);
                assert(titles[c] == columns[k].title@);
                assert(titles[cj] == columns[j].title@);
                assert(columns[j].title@ != columns[k].title@);
            }
        }
        assert(k < n) by {
            if k >= n {
                // k + 1 distinct columns below n
                let cs = Seq::new((k + 1) as nat, |j: int| named_column(columns, titles, j));
                assert forall|i: int, j: int| 0 <= i < j < cs.len() implies cs[i] != cs[j] by {
                    lemma_title_index(titles, columns[i].title@, 0);
                    lemma_title_index(titles, columns[j].title@, 0);
                    assert(named_column(columns, titles, i) >= 0);
                    assert(named_column(columns, titles, j) >= 0);
                }
                lemma_distinct_below(cs, n);
            }
        }
        lemma_move_to_front(order, prefix, c as usize, k, n);
        lemma_moved_keeps(order, c as usize, k, n);
        let next = apply_line(titles, states, order, k, lines[k]);
        lemma_flag(cl.visible);
        lemma_flag(cl.expand);
        assert(next.0 == states.update(c, saved_state(columns, titles, k)));
        assert(next.1.take(k + 1) == Seq::new((k + 1) as nat, |j: int| named_column(columns, titles, j) as usize));
        assert forall|j: int| 0 <= j < k + 1 implies next.0[named_column(columns, titles, j)] == saved_state(columns, titles, j) by {
            if j < k {
                let cj = named_column(columns, titles, j);
                assert(cj >= 0);
                lemma_title_index(titles, columns[j].title@, 0);
                if cj == c {
                    assert(titles[c] == columns[k].title@);
                }
            }
        }
        lemma_apply_saved(columns, titles, next.0, next.1, k + 1);
    } else {
        assert(order.take(k) == order.take(columns.len() as int));
    }
}

proof fn lemma_flag(b: bool)
    ensures
        (flag_text(b) == seq!['1']) == b,
{
    if !b {
        assert(flag_text(b)[0] != seq!['1'][0]);
    }
}

proof fn lemma_distinct_below(cs: Seq<int>, n: nat)
    requires
        forall|i: int| 0 <= i < cs.len() ==> 0 <= #[trigger] cs[i] < n,
        forall|i: int, j: int| 0 <= i < j < cs.len() ==> cs[i] != cs[j],
    ensures
        cs.len() <= n,
{
    assert(cs.no_duplicates());
    cs.unique_seq_to_set();
    vstd::set_lib::lemma_int_range(0, n as int);
    assert(cs.to_set().subset_of(vstd::set_lib::set_int_range(0, n as int)));
    vstd::set_lib::lemma_len_subset(cs.to_set(), vstd::set_lib::set_int_range(0, n as int));
}

/// Restoring a layout gives back what saving wrote: when the saved
/// columns have distinct titles that each name a column, each named column
/// gets the saved width (limited to -1..=10000), visibility (the first
/// column always shows) and expansion, and the saved columns come first in
/// the view, in the saved order.
pub proof fn restore_after_save(
    columns: Seq<SavedColumn>,
    titles: Seq<Seq<char>>,
    defaults: Seq<ColumnState>,
)
    requires
        defaults.len() == titles.len(),
        columns.len() <= titles.len(),
        titles.len() <= usize::MAX,
        forall|m: int| 0 <= m < columns.len() ==> storable_title(#[trigger] columns[m].title@),
        forall|m: int| 0 <= m < columns.len() ==> titles.contains(#[trigger] columns[m].title@),
        forall|i: int, j: int|
            0 <= i < j < columns.len() ==> columns[i].title@ != columns[j].title@,
    ensures
        ({
            let r = restored(layout_of(columns), titles, defaults);
            &&& r.1.take(columns.len() as int) == Seq::new(
                columns.len(),
                |j: int| named_column(columns, titles, j) as usize,
            )
            &&& forall|j: int|
                0 <= j < columns.len() ==> #[trigger] r.0[named_column(columns, titles, j)]
                    == saved_state(columns, titles, j)
        }),
{
    saved_layout_reads_back(columns);
    let n = titles.len();
    let start = Seq::new(n, |i: int| i as usize);
    assert forall|c: usize| c < n implies start.contains(c) by {
        assert(start[c as int] == c);
    }
    assert forall|m: int| 0 <= m < columns.len() implies #[trigger] named_column(columns, titles, m) >= 0 by {
        lemma_title_index_found(titles, columns[m].title@, 0);
        lemma_title_index(titles, columns[m].title@, 0);
    }
    assert(start.take(0) =~= Seq::new(0, |j: int| named_column(columns, titles, j) as usize));
    lemma_apply_saved(columns, titles, defaults, start, 0);
}

proof fn lemma_title_index_found(titles: Seq<Seq<char>>, t: Seq<char>, i: int)
    requires
        0 <= i <= titles.len(),
        exists|j: int| i <= j < titles.len() && titles[j] == t,
    ensures
        title_index(titles, t, i) is Some,
    decreases titles.len() - i,
{
    if titles[i] != t {
        let j = choose|j: int| i <= j < titles.len() && titles[j] == t;
        assert(j != i);
        lemma_title_index_found(titles, t, i + 1);
    }
}

} // verus!
