//! Decisions of the main window: the toolbar's drop-down choices, where a
//! search runs, folders-first ordering of indexed hits, the status line and
//! the location entry.

use vstd::prelude::*;

use crate::order::{arrange, arranged, is_permutation, stable_order, stably_sorted, Precedence};
use crate::paths::{is_absolute_path, join_path, path_is_absolute, path_joined};
use crate::search::SortMode;
use crate::text::{decimal, owned, push_decimal, push_text};

verus! {

/// The kinds of files a search can be narrowed to.
#[derive(Clone, Copy, PartialEq, Eq, Structural, Debug)]
pub enum FileClass {
    All,
    Image,
    Audio,
    Video,
    Document,
    Archive,
}

/// The file class of a drop-down row: 1 Image, 2 Audio, 3 Video,
/// 4 Document, 5 Archive, any other All.
pub fn class_at(selected: u32) -> (r: FileClass)
    ensures
        r == if selected == 1 {
            FileClass::Image
        } else if selected == 2 {
            FileClass::Audio
        } else if selected == 3 {
            FileClass::Video
        } else if selected == 4 {
            FileClass::Document
        } else if selected == 5 {
            FileClass::Archive
        } else {
            FileClass::All
        },
{
    if selected == 1 {
        FileClass::Image
    } else if selected == 2 {
        FileClass::Audio
    } else if selected == 3 {
        FileClass::Video
    } else if selected == 4 {
        FileClass::Document
    } else if selected == 5 {
        FileClass::Archive
    } else {
        FileClass::All
    }
}

/// The sort of a drop-down row: 1 Name, 2 NameDesc, 3 Newest, 4 Oldest,
/// 5 Largest, 6 Smallest, any other Score.
pub fn sort_at(selected: u32) -> (r: SortMode)
    ensures
        r == if selected == 1 {
            SortMode::Name
        } else if selected == 2 {
            SortMode::NameDesc
        } else if selected == 3 {
            SortMode::Newest
        } else if selected == 4 {
            SortMode::Oldest
        } else if selected == 5 {
            SortMode::Largest
        } else if selected == 6 {
            SortMode::Smallest
        } else {
            SortMode::Score
        },
{
    if selected == 1 {
        SortMode::Name
    } else if selected == 2 {
        SortMode::NameDesc
    } else if selected == 3 {
        SortMode::Newest
    } else if selected == 4 {
        SortMode::Oldest
    } else if selected == 5 {
        SortMode::Largest
    } else if selected == 6 {
        SortMode::Smallest
    } else {
        SortMode::Score
    }
}

/// Where a search runs.
#[derive(Clone, Copy, PartialEq, Eq, Structural, Debug)]
pub enum SearchRoute {
    /// Reading the current folder from disk.
    Live,
    /// The index, below the current folder.
    Folder,
    /// The whole index.
    Catalog,
}

/// The route of a search: the current folder read from disk when the scope
/// is the folder and the browser is not recursive, the indexed folder when
/// it is recursive, the whole index when the scope is global.
pub fn search_route(folder_scope: bool, recursive: bool) -> (r: SearchRoute)
    ensures
        r == if !folder_scope {
            SearchRoute::Catalog
        } else if recursive {
            SearchRoute::Folder
        } else {
            SearchRoute::Live
        },
{
    if !folder_scope {
        SearchRoute::Catalog
    } else if recursive {
        SearchRoute::Folder
    } else {
        SearchRoute::Live
    }
}

/// What a route reports when the place it searches is missing.
pub fn route_missing(route: SearchRoute) -> (r: &'static str)
    ensures
        route == SearchRoute::Live ==> r@ == "No folder selected"@,
        route == SearchRoute::Folder ==> r@
            == "Folder is outside the Catalog; refresh the Catalog for Qfind mode"@,
        route == SearchRoute::Catalog ==> r@ == "Catalog is not ready"@,
{
    match route {
        SearchRoute::Live => "No folder selected",
        SearchRoute::Folder => "Folder is outside the Catalog; refresh the Catalog for Qfind mode",
        SearchRoute::Catalog => "Catalog is not ready",
    }
}

/// Folders before files; otherwise order kept.
pub struct FoldersFirst;

impl Precedence<bool> for FoldersFirst {
    open spec fn precedes(self, a: bool, b: bool) -> bool {
        a || !b
    }

    proof fn precedes_total(self, a: bool, b: bool) {
    }

    proof fn precedes_transitive(self, a: bool, b: bool, c: bool) {
    }

    fn precedes_exec(&self, a: &bool, b: &bool) -> (r: bool) {
        *a || !*b
    }
}

/// Indexed hits with folders moved before files, each group in its
/// input order (`is_dir[i]` tells whether `ids[i]` is a folder).
pub fn folders_first(ids: Vec<u32>, is_dir: &Vec<bool>) -> (out: Vec<u32>)
    requires
        is_dir@.len() == ids@.len(),
    ensures
        exists|order: Seq<usize>|
            #![trigger arranged(ids@, order)]
            {
                &&& is_permutation(order, ids@.len())
                &&& stably_sorted(FoldersFirst, is_dir@, order)
                &&& out@ == arranged(ids@, order)
            },
{
    let order = stable_order(&FoldersFirst, is_dir);
    let ghost input = ids@;
    let out = arrange(ids, &order);
    assert(out@ == arranged(input, order@));
    out
}

/// After the folders-first ordering no file stands before a folder, and
/// hits of the same kind keep their given order.
pub proof fn folders_come_first(is_dir: Seq<bool>, order: Seq<usize>)
    requires
        is_permutation(order, is_dir.len()),
        stably_sorted(FoldersFirst, is_dir, order),
    ensures
        forall|i: int, j: int|
            0 <= i < j < order.len() && is_dir[order[j] as int] ==> is_dir[order[i] as int],
        forall|i: int, j: int|
            0 <= i < j < order.len() && is_dir[order[i] as int] == is_dir[order[j] as int] ==> order[i]
                < order[j],
{
    assert forall|i: int, j: int| 0 <= i < j < order.len() implies (is_dir[order[j] as int]
        ==> is_dir[order[i] as int]) && (is_dir[order[i] as int] == is_dir[order[j] as int] ==> order[i]
        < order[j]) by {
        assert(crate::order::in_order(FoldersFirst, is_dir, order[i], order[j]));
    }
}

/// The status line after a search: over the whole index, the hit count and
/// the index's folder and file counts; in a folder, the shown folder and
/// file counts; then the selected path, if any.
pub open spec fn status_of(
    global: bool,
    hits: nat,
    index_folders: nat,
    index_files: nat,
    folders: nat,
    files: nat,
    selected: Option<Seq<char>>,
) -> Seq<char> {
    let summary = if global {
        decimal(hits) + " Hits  ·  "@ + decimal(index_folders) + " folders · "@ + decimal(
            index_files,
        ) + " files"@
    } else {
        decimal(folders) + " folders · "@ + decimal(files) + " files"@
    };
    match selected {
        Some(p) => summary + "  ·  "@ + p,
        None => summary,
    }
}

/// The status line (see `status_of`).
pub fn status_text(
    global: bool,
    hits: u64,
    index_folders: u64,
    index_files: u64,
    folders: u64,
    files: u64,
    selected: Option<&str>,
) -> (r: String)
    ensures
        r@ == status_of(
            global,
            hits as nat,
            index_folders as nat,
            index_files as nat,
            folders as nat,
            files as nat,
            match selected {
                Some(p) => Some(p@),
                None => None,
            },
        ),
{
    let mut s = String::new();
    if global {
        push_decimal(&mut s, hits);
        push_text(&mut s, " Hits  ·  ");
        push_decimal(&mut s, index_folders);
        push_text(&mut s, " folders · ");
        push_decimal(&mut s, index_files);
        push_text(&mut s, " files");
    } else {
        push_decimal(&mut s, folders);
        push_text(&mut s, " folders · ");
        push_decimal(&mut s, files);
        push_text(&mut s, " files");
    }
    if let Some(p) = selected {
        push_text(&mut s, "  ·  ");
        push_text(&mut s, p);
    }
    s
}

/// The folder a typed location names: itself when absolute, else joined
/// onto `base` (the current folder, or the working directory).
pub fn location_target(raw: &str, base: &str) -> (r: String)
    ensures
        path_is_absolute(raw@) ==> r@ == raw@,
        !path_is_absolute(raw@) ==> r@ == path_joined(base@, raw@),
{
    if is_absolute_path(raw) {
        owned(raw)
    } else {
        join_path(base, raw)
    }
}

/// The icon of the pin button.
pub fn pin_icon(pinned: bool) -> (r: &'static str)
    ensures
        pinned ==> r@ == "starred-symbolic"@,
        !pinned ==> r@ == "non-starred-symbolic"@,
{
    if pinned {
        "starred-symbolic"
    } else {
        "non-starred-symbolic"
    }
}

/// The chart weight of a live row: its size, at least one.
pub fn live_weight(size: u64) -> (r: u64)
    ensures
        r == if size > 1 {
            size
        } else {
            1
        },
{
    if size > 1 {
        size
    } else {
        1
    }
}

} // verus!
