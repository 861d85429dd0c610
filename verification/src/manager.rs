//! The manager tools: selecting rows by name, extension and kind; the batch
//! copy, move, compress, extract and rename dialogs; and the storage
//! cleanup review.

use vstd::prelude::*;

use crate::lines::next_of;
use crate::paths::{
    extension_of,
    file_name_of,
    join_path,
    lowercase,
    path_eq,
    path_extension,
    path_file_name,
    path_joined,
    path_starts_with,
    same_path,
    starts_with_path,
    to_lowercase,
};
use crate::projects::{joined, push_joined};
use crate::settings::{trim, trimmed};
use crate::text::{
    chars_of, contains, contains_text, decimal, occurs_at, owned, push_decimal, push_text, string_from,
};

verus! {

/// The pieces `str::split(c)` yields from position `i` of `s` on: the text
/// up to the next `c`, then the pieces after it; the last piece runs to the
/// end (and is empty when `s` ends with `c`).
pub open spec fn pieces_from(s: Seq<char>, i: int, c: char) -> Seq<Seq<char>>
    decreases s.len() + 1 - i,
{
    if i < 0 || i > s.len() {
        seq![]
    } else {
        let e = next_of(s, i, c);
        if e < i || e >= s.len() {
            seq![s.subrange(i, s.len() as int)]
        } else {
            seq![s.subrange(i, e)] + pieces_from(s, e + 1, c)
        }
    }
}

/// The pieces of `s` cut at every `c` (`str::split`).
pub open spec fn pieces_of(s: Seq<char>, c: char) -> Seq<Seq<char>> {
    pieces_from(s, 0, c)
}

/// The views of a list of character vectors.
pub open spec fn char_views(v: Seq<Vec<char>>) -> Seq<Seq<char>> {
    v.map_values(|w: Vec<char>| w@)
}

/// Cuts `s` at every `c` (see `pieces_of`).
pub fn split_on(s: &[char], c: char) -> (out: Vec<Vec<char>>)
    ensures
        char_views(out@) == pieces_of(s@, c),
{
    let n = s.len();
    let mut out: Vec<Vec<char>> = Vec::new();
    let mut i: usize = 0;
    loop
        invariant
            n == s@.len(),
            i <= n,
            char_views(out@) + pieces_from(s@, i as int, c) == pieces_of(s@, c),
        decreases n - i,
    {
        let mut e = i;
        let mut piece: Vec<char> = Vec::new();
        while e < n && s[e] != c
            invariant
                n == s@.len(),
                i <= e <= n,
                next_of(s@, i as int, c) == next_of(s@, e as int, c),
                piece@ == s@.subrange(i as int, e as int),
            decreases n - e,
        {
            piece.push(s[e]);
            e = e + 1;
        }
        proof {
            assert(next_of(s@, e as int, c) == e);
        }
        let ghost before = char_views(out@);
        out.push(piece);
        proof {
            assert(char_views(out@) == before.push(piece@));
        }
        if e >= n {
            proof {
                assert(pieces_from(s@, i as int, c) == seq![piece@]);
                assert(before.push(piece@) == before + seq![piece@]);
            }
            return out;
        }
        proof {
            assert(pieces_from(s@, i as int, c) == seq![piece@] + pieces_from(s@, e + 1, c));
            assert(before.push(piece@) + pieces_from(s@, e + 1, c) == before + (seq![piece@]
                + pieces_from(s@, e + 1, c)));
        }
        i = e + 1;
    }
}

/// `s` without its leading dots (`trim_start_matches('.')`).
pub open spec fn undotted(s: Seq<char>) -> Seq<char>
    decreases s.len(),
{
    if s.len() > 0 && s[0] == '.' {
        undotted(s.drop_first())
    } else {
        s
    }
}

/// The extensions kept from the comma-separated pieces `ps`: each trimmed
/// of whitespace and of leading dots, empty ones dropped.
pub open spec fn kept_extensions(ps: Seq<Seq<char>>) -> Seq<Seq<char>>
    decreases ps.len(),
{
    if ps.len() == 0 {
        seq![]
    } else {
        let e = undotted(trimmed(ps.last()));
        kept_extensions(ps.drop_last()) + if e.len() > 0 {
            seq![e]
        } else {
            seq![]
        }
    }
}

/// The extensions typed into Select matching: the text lowercased, cut at
/// commas, each piece trimmed of whitespace and leading dots, empty pieces
/// dropped.
pub open spec fn extensions_of(text: Seq<char>) -> Seq<Seq<char>> {
    kept_extensions(pieces_of(lowercase(text), ','))
}

fn drop_dots(s: &[char]) -> (r: Vec<char>)
    ensures
        r@ == undotted(s@),
{
    let mut k: usize = 0;
    assert(s@.skip(0) == s@);
    while k < s.len() && s[k] == '.'
        invariant
            k <= s@.len(),
            undotted(s@) == undotted(s@.skip(k as int)),
        decreases s@.len() - k,
    {
        assert(s@.skip(k as int).drop_first() == s@.skip(k + 1));
        k = k + 1;
    }
    let mut r: Vec<char> = Vec::new();
    let mut j = k;
    while j < s.len()
        invariant
            k <= j <= s@.len(),
            r@ == s@.subrange(k as int, j as int),
        decreases s@.len() - j,
    {
        r.push(s[j]);
        j = j + 1;
    }
    assert(r@ == s@.skip(k as int));
    r
}

/// The extensions typed into Select matching (see `extensions_of`).
pub fn extension_list(text: &str) -> (r: Vec<String>)
    ensures
        r@.map_values(|s: String| s@) == extensions_of(text@),
{
    let lower = to_lowercase(text);
    let lc = chars_of(lower.as_str());
    let ps = split_on(&lc, ',');
    let ghost pv = char_views(ps@);
    let mut out: Vec<String> = Vec::new();
    let n = ps.len();
    let mut k: usize = 0;
    while k < n
        invariant
            n == ps@.len(),
            k <= n,
            pv == char_views(ps@),
            out@.map_values(|s: String| s@) == kept_extensions(pv.take(k as int)),
        decreases n - k,
    {
        let piece = string_from(&ps[k]);
        let t = trim(piece.as_str());
        let tc = chars_of(t.as_str());
        let e = drop_dots(&tc);
        let ghost before = out@.map_values(|s: String| s@);
        proof {
            assert(pv.take(k + 1).drop_last() == pv.take(k as int));
            assert(pv.take(k + 1).last() == ps@[k as int]@);
        }
        if e.len() > 0 {
            out.push(string_from(&e));
            assert(out@.map_values(|s: String| s@) == before.push(e@));
            assert(before.push(e@) == before + seq![e@]);
        } else {
            assert(before == before + Seq::<Seq<char>>::empty());
        }
        k = k + 1;
    }
    assert(pv.take(n as int) == pv);
    out
}

/// The kinds Select matching offers, by their place in its list.
pub open spec fn kind_admits_of(kind: u32, is_dir: bool, class_match: bool) -> bool {
    if kind == 1 {
        !is_dir
    } else if kind == 2 {
        is_dir
    } else if 3 <= kind <= 6 {
        class_match
    } else {
        true
    }
}

/// Whether a row passes the kind filter: files only (1), folders only
/// (2), the archive, image, audio or video class (3 to 6, whose answer the
/// caller passes in as `class_match`), or anything.
pub fn kind_admits(kind: u32, is_dir: bool, class_match: bool) -> (r: bool)
    ensures
        r == kind_admits_of(kind, is_dir, class_match),
{
    if kind == 1 {
        !is_dir
    } else if kind == 2 {
        is_dir
    } else if 3 <= kind && kind <= 6 {
        class_match
    } else {
        true
    }
}

/// The extension a row is matched by: that of its lowercased name, or
/// nothing.
pub open spec fn row_extension(lower_name: Seq<char>) -> Seq<char> {
    match path_extension(lower_name) {
        Some(e) => e,
        None => Seq::empty(),
    }
}

/// Whether Select matching selects a row: it passes the kind filter, its
/// lowercased name contains the lowercased needle, and, when extensions
/// are given, it is a file with one of them.
pub open spec fn selects(
    name: Seq<char>,
    is_dir: bool,
    needle: Seq<char>,
    exts: Seq<Seq<char>>,
    kind: u32,
    class_match: bool,
) -> bool {
    &&& kind_admits_of(kind, is_dir, class_match)
    &&& contains_text(lowercase(name), lowercase(needle))
    &&& (exts.len() == 0 || (!is_dir && exts.contains(row_extension(lowercase(name)))))
}

fn holds_text(list: &Vec<String>, t: &[char]) -> (r: bool)
    ensures
        r == list@.map_values(|s: String| s@).contains(t@),
{
    let ghost v = list@.map_values(|s: String| s@);
    let mut k: usize = 0;
    while k < list.len()
        invariant
            k <= list@.len(),
            v == list@.map_values(|s: String| s@),
            forall|m: int| 0 <= m < k ==> v[m] != t@,
        decreases list@.len() - k,
    {
        let c = chars_of(list[k].as_str());
        if crate::text::same_text(&c, t) {
            assert(v[k as int] == t@);
            return true;
        }
        k = k + 1;
    }
    false
}

/// Whether Select matching selects one row (see `selects`).  `exts` is
/// the list `extension_list` gives.
pub fn row_selected(
    name: &str,
    is_dir: bool,
    needle: &str,
    exts: &Vec<String>,
    kind: u32,
    class_match: bool,
) -> (r: bool)
    ensures
        r == selects(name@, is_dir, needle@, exts@.map_values(|s: String| s@), kind, class_match),
{
    if !kind_admits(kind, is_dir, class_match) {
        return false;
    }
    let lower = to_lowercase(name);
    let lower_needle = to_lowercase(needle);
    let lc = chars_of(lower.as_str());
    let nc = chars_of(lower_needle.as_str());
    if !contains(&lc, &nc) {
        return false;
    }
    if exts.len() == 0 {
        return true;
    }
    if is_dir {
        return false;
    }
    let e = match extension_of(lower.as_str()) {
        Some(e) => chars_of(e.as_str()),
        None => Vec::new(),
    };
    assert(e@ == row_extension(lowercase(name@)));
    holds_text(exts, &e)
}

/// Select matching looks for the search text anywhere in the name, case
/// folded: with no extensions and no kind filter, a row is selected
/// exactly when its lowercased name holds the lowercased needle at some
/// position.  A kind filter of files only never selects a folder, one of
/// folders only never a file, and a list of extensions never selects a
/// folder.
pub proof fn selection_matches_anywhere_in_the_name(
    name: Seq<char>,
    is_dir: bool,
    needle: Seq<char>,
    exts: Seq<Seq<char>>,
    kind: u32,
    class_match: bool,
)
    ensures
        selects(name, is_dir, needle, Seq::empty(), 0, class_match) <==> exists|i: int|
            0 <= i && i + lowercase(needle).len() <= lowercase(name).len() && #[trigger] lowercase(
                name,
            ).subrange(i, i + lowercase(needle).len()) == lowercase(needle),
        selects(name, is_dir, needle, exts, 1, class_match) ==> !is_dir,
        selects(name, is_dir, needle, exts, 2, class_match) ==> is_dir,
        exts.len() > 0 && selects(name, is_dir, needle, exts, kind, class_match) ==> !is_dir,
{
    let h = lowercase(name);
    let n = lowercase(needle);
    if contains_text(h, n) {
        let i = choose|i: int| occurs_at(h, n, i);
        assert(h.subrange(i, i + n.len()) == n);
    }
    if exists|i: int| 0 <= i && i + n.len() <= h.len() && #[trigger] h.subrange(i, i + n.len()) == n {
        let i = choose|i: int| 0 <= i && i + n.len() <= h.len() && #[trigger] h.subrange(i, i + n.len()) == n;
        assert(occurs_at(h, n, i));
    }
}

/// The count line under Select matching.
pub fn match_summary(count: u64) -> (r: String)
    ensures
        r@ == decimal(count as nat) + " matches in the currently loaded results"@,
{
    let mut s = String::new();
    push_decimal(&mut s, count);
    push_text(&mut s, " matches in the currently loaded results");
    s
}

/// The rows Select matching selects among the loaded rows: the positions
/// `k` whose name, kind and class answer pass `selects`, in order.
pub open spec fn selected_rows_of(
    names: Seq<Seq<char>>,
    dirs: Seq<bool>,
    classes: Seq<bool>,
    needle: Seq<char>,
    exts: Seq<Seq<char>>,
    kind: u32,
    rows: Seq<u32>,
) -> bool {
    &&& forall|i: int, j: int| 0 <= i < j < rows.len() ==> rows[i] < rows[j]
    &&& forall|i: int| 0 <= i < rows.len() ==> (#[trigger] rows[i]) < names.len()
    &&& forall|k: int|
        0 <= k < names.len() ==> (rows.contains(k as u32) <==> selects(
            #[trigger] names[k],
            dirs[k],
            needle,
            exts,
            kind,
            classes[k],
        ))
}

/// The positions Select matching selects (see `selected_rows_of`);
/// their number is the count its summary shows.
pub fn matching_rows(
    names: &Vec<String>,
    dirs: &Vec<bool>,
    classes: &Vec<bool>,
    needle: &str,
    extensions: &str,
    kind: u32,
) -> (r: Vec<u32>)
    requires
        dirs@.len() == names@.len(),
        classes@.len() == names@.len(),
        names@.len() <= u32::MAX,
    ensures
        selected_rows_of(
            names@.map_values(|s: String| s@),
            dirs@,
            classes@,
            needle@,
            extensions_of(extensions@),
            kind,
            r@,
        ),
{
    let exts = extension_list(extensions);
    let ghost nv = names@.map_values(|s: String| s@);
    let ghost ev = exts@.map_values(|s: String| s@);
    let mut out: Vec<u32> = Vec::new();
    let n = names.len();
    let mut k: usize = 0;
    while k < n
        invariant
            n == names@.len(),
            n == dirs@.len(),
            n == classes@.len(),
            n <= u32::MAX,
            k <= n,
            nv == names@.map_values(|s: String| s@),
            ev == extensions_of(extensions@),
            ev == exts@.map_values(|s: String| s@),
            forall|i: int, j: int| 0 <= i < j < out@.len() ==> out@[i] < out@[j],
            forall|i: int| 0 <= i < out@.len() ==> (#[trigger] out@[i]) < k,
            forall|m: int|
                0 <= m < k ==> (out@.contains(m as u32) <==> selects(
                    #[trigger] nv[m],
                    dirs@[m],
                    needle@,
                    ev,
                    kind,
                    classes@[m],
                )),
        decreases n - k,
    {
        let hit = row_selected(names[k].as_str(), dirs[k], needle, &exts, kind, classes[k]);
        let ghost before = out@;
        if hit {
            out.push(k as u32);
            proof {
                assert forall|m: int| 0 <= m < k implies (#[trigger] out@.contains(m as u32)
                    <==> before.contains(m as u32)) by {
                    if out@.contains(m as u32) {
                        let w = choose|w: int| 0 <= w < out@.len() && out@[w] == m as u32;
                        if w == before.len() {
                            assert(out@[w] == k as u32);
                        } else {
                            assert(before[w] == m as u32);
                        }
                    }
                    if before.contains(m as u32) {
                        let w = choose|w: int| 0 <= w < before.len() && before[w] == m as u32;
                        assert(out@[w] == m as u32);
                    }
                }
                assert(out@[before.len() as int] == k as u32);
            }
        } else {
            proof {
                if out@.contains(k as u32) {
                    let w = choose|w: int| 0 <= w < out@.len() && out@[w] == k as u32;
                    assert(out@[w] < k);
                }
            }
        }
        assert(nv[k as int] == names@[k as int]@);
        k = k + 1;
    }
    out
}

/// The batch operations on selected rows.
#[derive(Clone, Copy, PartialEq, Eq, Structural, Debug)]
pub enum Transfer {
    Copy,
    Move,
    Compress,
    Extract,
}

/// What a manager action asks for.
#[derive(Clone, Copy, PartialEq, Eq, Structural, Debug)]
pub enum ManagerStep {
    SelectMatching,
    /// The action needs selected rows and there are none.
    NeedSelection,
    Rename,
    Transfer(Transfer),
}

/// The step for a manager action by its name: Select matching needs no
/// rows; the others ask for a selection first; `batch-rename` renames;
/// copy, move and compress by name, and anything else extracts.
pub open spec fn step_of(name: Seq<char>, has_rows: bool) -> ManagerStep {
    if name == "select-matching"@ {
        ManagerStep::SelectMatching
    } else if !has_rows {
        ManagerStep::NeedSelection
    } else if name == "batch-rename"@ {
        ManagerStep::Rename
    } else if name == "batch-copy"@ {
        ManagerStep::Transfer(Transfer::Copy)
    } else if name == "batch-move"@ {
        ManagerStep::Transfer(Transfer::Move)
    } else if name == "batch-zip"@ {
        ManagerStep::Transfer(Transfer::Compress)
    } else {
        ManagerStep::Transfer(Transfer::Extract)
    }
}

fn is_text(a: &str, b: &str) -> (r: bool)
    ensures
        r == (a@ == b@),
{
    let ac = chars_of(a);
    let bc = chars_of(b);
    crate::text::same_text(&ac, &bc)
}

/// The step for a manager action (see `step_of`).
pub fn manager_step(name: &str, has_rows: bool) -> (r: ManagerStep)
    ensures
        r == step_of(name@, has_rows),
{
    if is_text(name, "select-matching") {
        ManagerStep::SelectMatching
    } else if !has_rows {
        ManagerStep::NeedSelection
    } else if is_text(name, "batch-rename") {
        ManagerStep::Rename
    } else if is_text(name, "batch-copy") {
        ManagerStep::Transfer(Transfer::Copy)
    } else if is_text(name, "batch-move") {
        ManagerStep::Transfer(Transfer::Move)
    } else if is_text(name, "batch-zip") {
        ManagerStep::Transfer(Transfer::Compress)
    } else {
        ManagerStep::Transfer(Transfer::Extract)
    }
}

/// The title of a transfer's destination prompt.
pub fn transfer_title(t: Transfer) -> (r: &'static str)
    ensures
        r@ == match t {
            Transfer::Copy => "Copy selected to folder"@,
            Transfer::Move => "Move selected to folder"@,
            Transfer::Compress => "Compress selected (.zip, .7z, .tar.gz)"@,
            Transfer::Extract => "Extract archives to folder"@,
        },
{
    match t {
        Transfer::Copy => "Copy selected to folder",
        Transfer::Move => "Move selected to folder",
        Transfer::Compress => "Compress selected (.zip, .7z, .tar.gz)",
        Transfer::Extract => "Extract archives to folder",
    }
}

/// The destination the prompt starts with: the current folder joined with
/// `Archive.zip` for a compression, and with nothing otherwise.
pub fn transfer_initial(dir: &str, t: Transfer) -> (r: String)
    ensures
        r@ == path_joined(
            dir@,
            if t == Transfer::Compress {
                "Archive.zip"@
            } else {
                ""@
            },
        ),
{
    if t == Transfer::Compress {
        join_path(dir, "Archive.zip")
    } else {
        join_path(dir, "")
    }
}

/// The name a transferred item takes in the destination: its own name, or
/// `<name>.extracted` for an extraction.
pub fn target_name(name: &str, t: Transfer) -> (r: String)
    ensures
        r@ == if t == Transfer::Extract {
            name@ + ".extracted"@
        } else {
            name@
        },
{
    let mut s = owned(name);
    if t == Transfer::Extract {
        push_text(&mut s, ".extracted");
    }
    s
}

/// Whether selected item `k` lies inside another selected item.
pub open spec fn nested_in_selection(paths: Seq<Seq<char>>, k: int) -> bool {
    exists|j: int|
        0 <= j < paths.len() && !same_path(#[trigger] paths[j], paths[k]) && path_starts_with(
            paths[k],
            paths[j],
        )
}

/// Whether selected item `k` lies inside another selected item (see
/// `nested_in_selection`); a transfer refuses such a selection.
pub fn nested_selection(paths: &Vec<String>, k: usize) -> (r: bool)
    requires
        k < paths@.len(),
    ensures
        r == nested_in_selection(paths@.map_values(|s: String| s@), k as int),
{
    let ghost pv = paths@.map_values(|s: String| s@);
    let mut j: usize = 0;
    while j < paths.len()
        invariant
            j <= paths@.len(),
            k < paths@.len(),
            pv == paths@.map_values(|s: String| s@),
            forall|m: int|
                0 <= m < j ==> !(!same_path(#[trigger] pv[m], pv[k as int]) && path_starts_with(
                    pv[k as int],
                    pv[m],
                )),
        decreases paths@.len() - j,
    {
        if !path_eq(paths[j].as_str(), paths[k].as_str()) && starts_with_path(
            paths[k].as_str(),
            paths[j].as_str(),
        ) {
            assert(!same_path(pv[j as int], pv[k as int]) && path_starts_with(pv[k as int], pv[j as int]));
            return true;
        }
        j = j + 1;
    }
    false
}

/// The refusal for a selection nested in itself.
pub fn nested_refusal() -> (r: &'static str)
    ensures
        r@ == "Destination or selection is nested inside another selected folder"@,
{
    "Destination or selection is nested inside another selected folder"
}

/// The refusal for a destination that exists or repeats.
pub fn taken_refusal(target: &str) -> (r: String)
    ensures
        r@ == "Destination already exists or repeats: "@ + target@,
{
    let mut s = owned("Destination already exists or repeats: ");
    push_text(&mut s, target);
    s
}

/// The refusal for an extraction of something that is no archive.
pub fn not_archive_refusal(path: &str) -> (r: String)
    ensures
        r@ == "Not a supported archive: "@ + path@,
{
    let mut s = owned("Not a supported archive: ");
    push_text(&mut s, path);
    s
}

/// The report of a transfer that stopped at `source` after `done` items.
pub fn transfer_stopped(done: u64, source: &str, error: &str) -> (r: String)
    ensures
        r@ == "Completed "@ + decimal(done as nat) + "; stopped at "@ + source@ + ": "@ + error@
            + "\nCheck the destination for partial output before retrying."@,
{
    let mut s = owned("Completed ");
    push_decimal(&mut s, done);
    push_text(&mut s, "; stopped at ");
    push_text(&mut s, source);
    push_text(&mut s, ": ");
    push_text(&mut s, error);
    push_text(&mut s, "\nCheck the destination for partial output before retrying.");
    s
}

/// The report of a finished copy, move or extraction.
pub fn transfer_done(done: u64, dest: &str) -> (r: String)
    ensures
        r@ == "Completed "@ + decimal(done as nat) + " items in "@ + dest@,
{
    let mut s = owned("Completed ");
    push_decimal(&mut s, done);
    push_text(&mut s, " items in ");
    push_text(&mut s, dest);
    s
}

/// The report of a finished compression.
pub fn compressed_text(dest: &str) -> (r: String)
    ensures
        r@ == "Created "@ + dest@,
{
    let mut s = owned("Created ");
    push_text(&mut s, dest);
    s
}

/// One line of the rename preview: the old path, then the new name.
pub open spec fn rename_line(from: Seq<char>, to: Seq<char>) -> Seq<char> {
    from + "  →  "@ + match path_file_name(to) {
        Some(n) => n,
        None => Seq::empty(),
    }
}

/// The lines of the first `k` rename pairs.
pub open spec fn rename_lines(pairs: Seq<(String, String)>, k: int) -> Seq<Seq<char>> {
    Seq::new(k as nat, |i: int| rename_line(pairs[i].0@, pairs[i].1@))
}

/// The rename preview: the first 200 pairs, one line each, and whether any
/// pair renames anything (the Rename button's state).
pub open spec fn rename_preview_of(pairs: Seq<(String, String)>) -> (Seq<char>, bool) {
    let shown = if pairs.len() < 200 {
        pairs.len() as int
    } else {
        200
    };
    (
        joined(rename_lines(pairs, shown), "\n"@),
        exists|i: int| 0 <= i < pairs.len() && !same_path(#[trigger] pairs[i].0@, pairs[i].1@),
    )
}

/// The rename preview (see `rename_preview_of`).
pub fn rename_preview(pairs: &Vec<(String, String)>) -> (r: (String, bool))
    ensures
        (r.0@, r.1) == rename_preview_of(pairs@),
{
    let shown: usize = if pairs.len() < 200 {
        pairs.len()
    } else {
        200
    };
    let mut lines: Vec<String> = Vec::new();
    let mut k: usize = 0;
    while k < shown
        invariant
            shown <= pairs@.len(),
            k <= shown,
            lines@.map_values(|s: String| s@) == rename_lines(pairs@, k as int),
        decreases shown - k,
    {
        let mut line = owned(pairs[k].0.as_str());
        push_text(&mut line, "  →  ");
        match file_name_of(pairs[k].1.as_str()) {
            Some(n) => push_text(&mut line, n.as_str()),
            None => {},
        }
        assert(line@ == rename_line(pairs@[k as int].0@, pairs@[k as int].1@));
        let ghost before = lines@.map_values(|s: String| s@);
        lines.push(line);
        assert(lines@.map_values(|s: String| s@) == before.push(line@));
        assert(rename_lines(pairs@, k + 1) == rename_lines(pairs@, k as int).push(line@));
        k = k + 1;
    }
    let mut text = String::new();
    push_joined(&mut text, &lines, "\n");
    let mut any = false;
    let mut j: usize = 0;
    while j < pairs.len()
        invariant
            j <= pairs@.len(),
            any == exists|i: int| 0 <= i < j && !same_path(#[trigger] pairs@[i].0@, pairs@[i].1@),
        decreases pairs@.len() - j,
    {
        if !path_eq(pairs[j].0.as_str(), pairs[j].1.as_str()) {
            any = true;
        }
        j = j + 1;
    }
    (text, any)
}

/// The pairs a rename carries out: those whose path changes, in order.
pub open spec fn changing_pairs(pairs: Seq<(String, String)>) -> Seq<(Seq<char>, Seq<char>)>
    decreases pairs.len(),
{
    if pairs.len() == 0 {
        seq![]
    } else {
        let last = pairs.last();
        changing_pairs(pairs.drop_last()) + if same_path(last.0@, last.1@) {
            seq![]
        } else {
            seq![(last.0@, last.1@)]
        }
    }
}

/// The pairs a rename carries out (see `changing_pairs`).
pub fn renames_to_do(pairs: &Vec<(String, String)>) -> (r: Vec<(String, String)>)
    ensures
        r@.map_values(|p: (String, String)| (p.0@, p.1@)) == changing_pairs(pairs@),
{
    let mut out: Vec<(String, String)> = Vec::new();
    let mut k: usize = 0;
    while k < pairs.len()
        invariant
            k <= pairs@.len(),
            out@.map_values(|p: (String, String)| (p.0@, p.1@)) == changing_pairs(
                pairs@.take(k as int),
            ),
        decreases pairs@.len() - k,
    {
        let ghost before = out@.map_values(|p: (String, String)| (p.0@, p.1@));
        proof {
            assert(pairs@.take(k + 1).drop_last() == pairs@.take(k as int));
            assert(pairs@.take(k + 1).last() == pairs@[k as int]);
        }
        if !path_eq(pairs[k].0.as_str(), pairs[k].1.as_str()) {
            out.push((owned(pairs[k].0.as_str()), owned(pairs[k].1.as_str())));
            assert(out@.map_values(|p: (String, String)| (p.0@, p.1@)) == before + seq![
                (pairs@[k as int].0@, pairs@[k as int].1@),
            ]);
        } else {
            assert(before == before + Seq::<(Seq<char>, Seq<char>)>::empty());
        }
        k = k + 1;
    }
    assert(pairs@.take(pairs@.len() as int) == pairs@);
    out
}

/// The refusal of a rename onto something that exists.
pub fn rename_refusal(to: &str) -> (r: String)
    ensures
        r@ == "Nothing renamed: "@ + to@ + " already exists"@,
{
    let mut s = owned("Nothing renamed: ");
    push_text(&mut s, to);
    push_text(&mut s, " already exists");
    s
}

/// The report of a rename that stopped at `from` after `done` items.
pub fn rename_stopped(done: u64, from: &str, error: &str) -> (r: String)
    ensures
        r@ == "Renamed "@ + decimal(done as nat) + "; stopped at "@ + from@ + ": "@ + error@,
{
    let mut s = owned("Renamed ");
    push_decimal(&mut s, done);
    push_text(&mut s, "; stopped at ");
    push_text(&mut s, from);
    push_text(&mut s, ": ");
    push_text(&mut s, error);
    s
}

/// The report of a finished rename.
pub fn rename_done(done: u64) -> (r: String)
    ensures
        r@ == "Renamed "@ + decimal(done as nat) + " items."@,
{
    let mut s = owned("Renamed ");
    push_decimal(&mut s, done);
    push_text(&mut s, " items.");
    s
}

} // verus!
