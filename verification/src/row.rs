//! One row of a result surface: a hit or a tree node, with the metadata the
//! size and modified columns show.

use vstd::prelude::*;

verus! {

/// What a row holds, as plain values.
pub struct RowView {
    pub name: Seq<char>,
    pub path: Seq<char>,
    pub is_dir: bool,
    pub depth: u32,
    pub has_kids: bool,
    pub size: u64,
    /// Unix seconds, `0` when unknown.
    pub modified: i64,
}

/// The item behind each list, grid and tree row.
pub struct RowData {
    name: String,
    path: String,
    is_dir: bool,
    depth: u32,
    has_kids: bool,
    size: u64,
    modified: i64,
}

impl View for RowData {
    type V = RowView;

    closed spec fn view(&self) -> RowView {
        RowView {
            name: self.name@,
            path: self.path@,
            is_dir: self.is_dir,
            depth: self.depth,
            has_kids: self.has_kids,
            size: self.size,
            modified: self.modified,
        }
    }
}

impl RowData {
    /// A top-level row with known size and modification time.
    pub fn new(name: String, path: String, is_dir: bool, size: u64, modified: i64) -> (r: Self)
        ensures
            r@ == (RowView {
                name: name@,
                path: path@,
                is_dir,
                depth: 0,
                has_kids: false,
                size,
                modified,
            }),
    {
        let mut r = Self::with_depth(name, path, is_dir, 0);
        r.size = size;
        r.modified = modified;
        r
    }

    /// A row at `depth` in a tree, without children and with unknown
    /// size and time.
    pub fn with_depth(name: String, path: String, is_dir: bool, depth: u32) -> (r: Self)
        ensures
            r@ == (RowView {
                name: name@,
                path: path@,
                is_dir,
                depth,
                has_kids: false,
                size: 0,
                modified: 0,
            }),
    {
        RowData { name, path, is_dir, depth, has_kids: false, size: 0, modified: 0 }
    }

    /// A tree row that may have children to fold.
    pub fn with_fold(name: String, path: String, is_dir: bool, depth: u32, has_kids: bool) -> (r:
        Self)
        ensures
            r@ == (RowView {
                name: name@,
                path: path@,
                is_dir,
                depth,
                has_kids,
                size: 0,
                modified: 0,
            }),
    {
        let mut r = Self::with_depth(name, path, is_dir, depth);
        r.has_kids = has_kids;
        r
    }

    pub fn name(&self) -> (r: String)
        ensures
            r@ == self@.name,
    {
        self.name.clone()
    }

    pub fn path(&self) -> (r: String)
        ensures
            r@ == self@.path,
    {
        self.path.clone()
    }

    pub fn is_dir(&self) -> (r: bool)
        ensures
            r == self@.is_dir,
    {
        self.is_dir
    }

    pub fn depth(&self) -> (r: u32)
        ensures
            r == self@.depth,
    {
        self.depth
    }

    pub fn has_kids(&self) -> (r: bool)
        ensures
            r == self@.has_kids,
    {
        self.has_kids
    }

    pub fn size(&self) -> (r: u64)
        ensures
            r == self@.size,
    {
        self.size
    }

    pub fn modified(&self) -> (r: i64)
        ensures
            r == self@.modified,
    {
        self.modified
    }

    /// Borrows the name.
    pub fn name_str(&self) -> (r: &str)
        ensures
            r@ == self@.name,
    {
        self.name.as_str()
    }

    /// Borrows the path.
    pub fn path_str(&self) -> (r: &str)
        ensures
            r@ == self@.path,
    {
        self.path.as_str()
    }

    /// Whether the row still has to look at the file: its time is unknown.
    pub fn needs_stat(&self) -> (r: bool)
        ensures
            r == (self@.modified <= 0),
    {
        self.modified <= 0
    }

    /// The size and time a row takes from a look at its file (`len` and
    /// `mtime`, the Unix seconds or `0` when unknown): nothing when its time
    /// is already known or the look failed; else the file's time, and its
    /// length for a file, while a folder keeps its size.
    pub fn stat_update(&self, stat: Option<(u64, i64)>) -> (r: Option<(u64, i64)>)
        ensures
            r == if self@.modified > 0 {
                None
            } else {
                match stat {
                    None => None,
                    Some((len, mtime)) => Some(
                        (
                            if self@.is_dir {
                                self@.size
                            } else {
                                len
                            },
                            mtime,
                        ),
                    ),
                }
            },
    {
        if self.modified > 0 {
            return None;
        }
        match stat {
            None => None,
            Some((len, mtime)) => Some(
                (
                    if self.is_dir {
                        self.size
                    } else {
                        len
                    },
                    mtime,
                ),
            ),
        }
    }

    /// Caches live filesystem metadata: size and time change, the rest stays.
    pub fn fill_metadata(&mut self, size: u64, modified: i64)
        ensures
            final(self)@ == (RowView { size, modified, ..old(self)@ }),
    {
        self.size = size;
        self.modified = modified;
    }
}

} // verus!
