//! The settings window's model: the choices behind its drop-downs, the
//! cleaning of its list editors, and whether a save touches the catalog.

use vstd::prelude::*;

use crate::paths::{path_eq, same_path};
use crate::search::MatchMode;
use crate::surface::PreviewMode;
use crate::text::{chars_of, is_space, owned, same_text, space, string_from};

verus! {

/// How hits open.
#[derive(Clone, Copy, PartialEq, Eq, Structural, Debug)]
pub enum OpenMode {
    /// The editor for text, the desktop handler otherwise.
    Auto,
    /// The desktop handler.
    Xdg,
    /// The editor.
    Editor,
}

/// The drop-down row of a preview mode.
pub fn preview_index(mode: PreviewMode) -> (r: u32)
    ensures
        r == match mode {
            PreviewMode::Hovered => 0u32,
            PreviewMode::Selected => 1u32,
        },
{
    match mode {
        PreviewMode::Hovered => 0,
        PreviewMode::Selected => 1,
    }
}

/// The preview mode of a drop-down row: row 1 is Selected, any other Hovered.
pub fn preview_at(selected: u32) -> (r: PreviewMode)
    ensures
        r == if selected == 1 {
            PreviewMode::Selected
        } else {
            PreviewMode::Hovered
        },
{
    if selected == 1 {
        PreviewMode::Selected
    } else {
        PreviewMode::Hovered
    }
}

/// The drop-down row of a match mode.
pub fn match_index(mode: MatchMode) -> (r: u32)
    ensures
        r == match mode {
            MatchMode::Fuzzy => 0u32,
            MatchMode::Substring => 1u32,
            MatchMode::Exact => 2u32,
        },
{
    match mode {
        MatchMode::Fuzzy => 0,
        MatchMode::Substring => 1,
        MatchMode::Exact => 2,
    }
}

/// The match mode of a drop-down row: 1 Substring, 2 Exact, any other Fuzzy.
pub fn match_at(selected: u32) -> (r: MatchMode)
    ensures
        r == if selected == 1 {
            MatchMode::Substring
        } else if selected == 2 {
            MatchMode::Exact
        } else {
            MatchMode::Fuzzy
        },
{
    if selected == 1 {
        MatchMode::Substring
    } else if selected == 2 {
        MatchMode::Exact
    } else {
        MatchMode::Fuzzy
    }
}

/// The drop-down row of an open mode.
pub fn open_index(mode: OpenMode) -> (r: u32)
    ensures
        r == match mode {
            OpenMode::Auto => 0u32,
            OpenMode::Xdg => 1u32,
            OpenMode::Editor => 2u32,
        },
{
    match mode {
        OpenMode::Auto => 0,
        OpenMode::Xdg => 1,
        OpenMode::Editor => 2,
    }
}

/// The open mode of a drop-down row: 1 Xdg, 2 Editor, any other Auto.
pub fn open_at(selected: u32) -> (r: OpenMode)
    ensures
        r == if selected == 1 {
            OpenMode::Xdg
        } else if selected == 2 {
            OpenMode::Editor
        } else {
            OpenMode::Auto
        },
{
    if selected == 1 {
        OpenMode::Xdg
    } else if selected == 2 {
        OpenMode::Editor
    } else {
        OpenMode::Auto
    }
}

/// Choosing the row a mode is shown at gives that mode back, for each of
/// the three drop-downs.
pub proof fn modes_round_trip(preview: PreviewMode, matching: MatchMode, open: OpenMode)
    ensures
        (if (match preview {
            PreviewMode::Hovered => 0u32,
            PreviewMode::Selected => 1u32,
        }) == 1 {
            PreviewMode::Selected
        } else {
            PreviewMode::Hovered
        }) == preview,
        ({
            let i = match matching {
                MatchMode::Fuzzy => 0u32,
                MatchMode::Substring => 1u32,
                MatchMode::Exact => 2u32,
            };
            if i == 1 {
                MatchMode::Substring
            } else if i == 2 {
                MatchMode::Exact
            } else {
                MatchMode::Fuzzy
            }
        }) == matching,
        ({
            let i = match open {
                OpenMode::Auto => 0u32,
                OpenMode::Xdg => 1u32,
                OpenMode::Editor => 2u32,
            };
            if i == 1 {
                OpenMode::Xdg
            } else if i == 2 {
                OpenMode::Editor
            } else {
                OpenMode::Auto
            }
        }) == open,
{
}

/// The row of `wanted` in `list`, or row 0 when it is absent.
pub open spec fn row_of(list: Seq<Seq<char>>, wanted: Seq<char>, i: int) -> int
    decreases list.len() - i,
{
    if i < 0 || i >= list.len() {
        0
    } else if list[i] == wanted {
        i
    } else {
        row_of(list, wanted, i + 1)
    }
}

/// The drop-down row showing `wanted` (see `row_of`).
pub fn index_of(list: &Vec<String>, wanted: &str) -> (r: u32)
    requires
        list@.len() <= u32::MAX,
    ensures
        r as int == row_of(list@.map_values(|t: String| t@), wanted@, 0),
{
    let ghost views = list@.map_values(|t: String| t@);
    let target = chars_of(wanted);
    let mut i: usize = 0;
    while i < list.len()
        invariant
            i <= list@.len() <= u32::MAX,
            views == list@.map_values(|t: String| t@),
            target@ == wanted@,
            row_of(views, wanted@, 0) == row_of(views, wanted@, i as int),
        decreases list@.len() - i,
    {
        let here = chars_of(list[i].as_str());
        assert(views[i as int] == list@[i as int]@);
        if same_text(&here, &target) {
            return i as u32;
        }
        i = i + 1;
    }
    0
}

/// The entry of a list a drop-down row picks, wrapping around its length.
pub fn pick_wrapped(list: &Vec<String>, selected: u32) -> (r: String)
    requires
        list@.len() > 0,
    ensures
        r@ == list@[(selected as int) % (list@.len() as int)]@,
{
    let k = (selected as usize) % list.len();
    owned(list[k].as_str())
}

/// Whether two lists of folders name the same paths in the same order
/// (`Vec<PathBuf>` equality: each pair equal component-wise).
pub open spec fn same_path_lists(a: Seq<Seq<char>>, b: Seq<Seq<char>>) -> bool {
    &&& a.len() == b.len()
    &&& forall|k: int| 0 <= k < a.len() ==> same_path(#[trigger] a[k], b[k])
}

/// Whether two lists of folders name the same paths (see
/// `same_path_lists`).
pub fn same_paths(a: &Vec<String>, b: &Vec<String>) -> (r: bool)
    ensures
        r == same_path_lists(a@.map_values(|t: String| t@), b@.map_values(|t: String| t@)),
        a@.map_values(|t: String| t@) == b@.map_values(|t: String| t@) ==> r,
{
    let ghost va = a@.map_values(|t: String| t@);
    let ghost vb = b@.map_values(|t: String| t@);
    if a.len() != b.len() {
        return false;
    }
    let n = a.len();
    let mut i: usize = 0;
    while i < n
        invariant
            n == a@.len(),
            n == b@.len(),
            i <= n,
            va == a@.map_values(|t: String| t@),
            vb == b@.map_values(|t: String| t@),
            forall|k: int| 0 <= k < i ==> same_path(#[trigger] va[k], vb[k]),
        decreases n - i,
    {
        if !path_eq(a[i].as_str(), b[i].as_str()) {
            assert(!same_path(va[i as int], vb[i as int]));
            assert(va[i as int] != vb[i as int]);
            return false;
        }
        i = i + 1;
    }
    true
}

/// Whether a save changes what the catalog indexes: the excluded names
/// differ as texts, or the indexed roots differ as paths.
pub fn catalog_settings_changed(
    old_exclude: &Vec<String>,
    old_include: &Vec<String>,
    next_exclude: &Vec<String>,
    next_include: &Vec<String>,
) -> (r: bool)
    ensures
        r == (old_exclude@.map_values(|t: String| t@) != next_exclude@.map_values(|t: String| t@)
            || !same_path_lists(
            old_include@.map_values(|t: String| t@),
            next_include@.map_values(|t: String| t@),
        )),
        old_exclude@.map_values(|t: String| t@) == next_exclude@.map_values(|t: String| t@)
            && old_include@.map_values(|t: String| t@) == next_include@.map_values(|t: String| t@)
            ==> !r,
{
    !same_texts(old_exclude, next_exclude) || !same_paths(old_include, next_include)
}

/// Whether two lists hold the same texts in the same order.
pub fn same_texts(a: &Vec<String>, b: &Vec<String>) -> (r: bool)
    ensures
        r == (a@.map_values(|t: String| t@) == b@.map_values(|t: String| t@)),
{
    let ghost va = a@.map_values(|t: String| t@);
    let ghost vb = b@.map_values(|t: String| t@);
    if a.len() != b.len() {
        assert(va.len() != vb.len());
        return false;
    }
    let n = a.len();
    let mut i: usize = 0;
    while i < n
        invariant
            n == a@.len(),
            n == b@.len(),
            i <= n,
            va == a@.map_values(|t: String| t@),
            vb == b@.map_values(|t: String| t@),
            forall|k: int| 0 <= k < i ==> va[k] == vb[k],
        decreases n - i,
    {
        let x = chars_of(a[i].as_str());
        let y = chars_of(b[i].as_str());
        if !same_text(&x, &y) {
            assert(va[i as int] != vb[i as int]);
            return false;
        }
        i = i + 1;
    }
    assert(va =~= vb);
    true
}

/// `s` without leading and trailing whitespace (`str::trim`).
pub open spec fn trimmed(s: Seq<char>) -> Seq<char> {
    let start = first_kept(s, 0);
    let end = last_kept(s, s.len() as int);
    if start >= end {
        Seq::empty()
    } else {
        s.subrange(start, end)
    }
}

/// The first position at or after `i` that is not whitespace, or the length.
pub open spec fn first_kept(s: Seq<char>, i: int) -> int
    decreases s.len() - i,
{
    if i < 0 || i >= s.len() {
        s.len() as int
    } else if !is_space(s[i]) {
        i
    } else {
        first_kept(s, i + 1)
    }
}

/// The end of the text before `end` once trailing whitespace is dropped.
pub open spec fn last_kept(s: Seq<char>, end: int) -> int
    decreases end,
{
    if end <= 0 || end > s.len() {
        0
    } else if !is_space(s[end - 1]) {
        end
    } else {
        last_kept(s, end - 1)
    }
}

/// `s` trimmed of whitespace at both ends (see `trimmed`).
pub fn trim(s: &str) -> (r: String)
    ensures
        r@ == trimmed(s@),
{
    let c = chars_of(s);
    let n = c.len();
    let mut start: usize = 0;
    while start < n && space(c[start])
        invariant
            start <= n == c@.len(),
            c@ == s@,
            first_kept(s@, 0) == first_kept(s@, start as int),
        decreases n - start,
    {
        start = start + 1;
    }
    let mut end: usize = n;
    while end > 0 && space(c[end - 1])
        invariant
            end <= n == c@.len(),
            c@ == s@,
            last_kept(s@, n as int) == last_kept(s@, end as int),
        decreases end,
    {
        end = end - 1;
    }
    if start >= end {
        return String::new();
    }
    let mut kept: Vec<char> = Vec::new();
    let mut k = start;
    while k < end
        invariant
            start <= k <= end <= n == c@.len(),
            kept@ == c@.subrange(start as int, k as int),
        decreases end - k,
    {
        kept.push(c[k]);
        k = k + 1;
    }
    string_from(&kept)
}

/// The entries of a list editor, trimmed, blank ones left out.
pub open spec fn cleaned(texts: Seq<Seq<char>>) -> Seq<Seq<char>>
    decreases texts.len(),
{
    if texts.len() == 0 {
        Seq::empty()
    } else {
        let rest = cleaned(texts.drop_last());
        let t = trimmed(texts.last());
        if t.len() == 0 {
            rest
        } else {
            rest.push(t)
        }
    }
}

/// The items of a list editor (see `cleaned`).
pub fn clean_items(texts: &Vec<String>) -> (r: Vec<String>)
    ensures
        r@.map_values(|t: String| t@) == cleaned(texts@.map_values(|t: String| t@)),
{
    let ghost views = texts@.map_values(|t: String| t@);
    let mut out: Vec<String> = Vec::new();
    let n = texts.len();
    for k in 0..n
        invariant
            n == texts@.len(),
            views == texts@.map_values(|t: String| t@),
            out@.map_values(|t: String| t@) == cleaned(views.take(k as int)),
    {
        let t = trim(texts[k].as_str());
        let ghost before = out@.map_values(|t: String| t@);
        proof {
            assert(views.take(k + 1).drop_last() == views.take(k as int));
            assert(views.take(k + 1).last() == texts@[k as int]@);
        }
        if !t.as_str().is_empty() {
            out.push(t);
            assert(out@.map_values(|t: String| t@) == before.push(t@));
        }
    }
    assert(views.take(n as int) == views);
    out
}

/// The rows a list editor shows for its items: one per item, or a single
/// empty row when there are none.
pub fn rows_for(items: &Vec<String>) -> (r: Vec<String>)
    ensures
        items@.len() == 0 ==> r@.map_values(|t: String| t@) == seq![Seq::<char>::empty()],
        items@.len() > 0 ==> r@.map_values(|t: String| t@) == items@.map_values(|t: String| t@),
{
    let mut rows: Vec<String> = Vec::new();
    let n = items.len();
    if n == 0 {
        rows.push(String::new());
        assert(rows@.map_values(|t: String| t@) == seq![Seq::<char>::empty()]);
        return rows;
    }
    for k in 0..n
        invariant
            n == items@.len(),
            rows@.map_values(|t: String| t@) == items@.map_values(|t: String| t@).take(k as int),
    {
        let ghost before = rows@.map_values(|t: String| t@);
        rows.push(owned(items[k].as_str()));
        proof {
            assert(rows@.map_values(|t: String| t@) == before.push(items@[k as int]@));
            assert(items@.map_values(|t: String| t@).take(k + 1) == items@.map_values(
                |t: String| t@,
            ).take(k as int).push(items@[k as int]@));
        }
    }
    assert(items@.map_values(|t: String| t@).take(n as int) == items@.map_values(|t: String| t@));
    rows
}

} // verus!
