//! Decisions behind the result surfaces: which item a preview shows, which
//! rows a chart hover highlights, which icon a row gets, the fold state of
//! the tree, row metrics and chart tile hues.

use vstd::prelude::*;
use vstd::utf8::encode_utf8;

use crate::lines::{find_last, last_of};
use crate::order::{is_permutation, stable_order, stably_sorted};
use crate::paths::{parent_of, path_parent, path_starts_with, path_strip_prefix, starts_with_path, strip_prefix_of};
use crate::storage::LargestFirst;
use crate::text::{chars_of, lower_all, owned, same_text, string_from, to_ascii_lower};

verus! {

/// Which item the preview key opens first.
#[derive(Clone, Copy, PartialEq, Eq, Structural, Debug)]
pub enum PreviewMode {
    Hovered,
    Selected,
}

/// The path the preview key shows: the hovered item, else the selected one
/// (`Hovered`), or the other way round (`Selected`).
pub fn preview_path(mode: PreviewMode, hovered: Option<String>, selected: Option<String>) -> (r:
    Option<String>)
    ensures
        r == match mode {
            PreviewMode::Hovered => if hovered is Some {
                hovered
            } else {
                selected
            },
            PreviewMode::Selected => if selected is Some {
                selected
            } else {
                hovered
            },
        },
{
    match mode {
        PreviewMode::Hovered => match hovered {
            Some(h) => Some(h),
            None => selected,
        },
        PreviewMode::Selected => match selected {
            Some(s) => Some(s),
            None => hovered,
        },
    }
}

/// Whether a chart hover over `hovered` highlights the item whose tooltip
/// holds `item`: one path lies inside the other (component-wise).
pub open spec fn highlighted(item: Option<Seq<char>>, hovered: Option<Seq<char>>) -> bool {
    match (item, hovered) {
        (Some(i), Some(h)) => path_starts_with(h, i) || path_starts_with(i, h),
        _ => false,
    }
}

/// Whether an item (by its tooltip path) is highlighted while the chart
/// hovers `hovered` (see `highlighted`).
pub fn highlight_path(item: Option<&str>, hovered: Option<&str>) -> (r: bool)
    ensures
        r == highlighted(
            match item {
                Some(i) => Some(i@),
                None => None,
            },
            match hovered {
                Some(h) => Some(h@),
                None => None,
            },
        ),
{
    match (item, hovered) {
        (Some(i), Some(h)) => starts_with_path(h, i) || starts_with_path(i, h),
        _ => false,
    }
}

/// The icon key of a file name: what follows its last `'.'`, in ASCII
/// lowercase, or nothing when the name has no `'.'`.
pub open spec fn icon_key(name: Seq<char>) -> Seq<char> {
    match last_of(name, name.len() as int, '.') {
        Some(d) => lower_all(name.subrange(d + 1, name.len() as int)),
        None => Seq::empty(),
    }
}

/// Which icon a row shows: `None` for the folder picture, else the key
/// under which the file-type icon is cached (see `icon_key`).
pub fn paint_icon(is_dir: bool, name: &str) -> (r: Option<String>)
    ensures
        is_dir ==> r is None,
        !is_dir ==> (r matches Some(k) && k@ == icon_key(name@)),
{
    if is_dir {
        return None;
    }
    let chars = chars_of(name);
    let found = find_last(&chars, chars.len(), '.');
    let end = match found {
        Some(d) => d + 1,
        None => {
            return Some(String::new());
        },
    };
    let mut tail: Vec<char> = Vec::new();
    let mut k = end;
    while k < chars.len()
        invariant
            end <= k <= chars@.len(),
            tail@ == chars@.subrange(end as int, k as int),
        decreases chars@.len() - k,
    {
        tail.push(chars[k]);
        k = k + 1;
    }
    proof {
        let d = (end - 1) as int;
        assert(found == Some((end - 1) as usize));
        assert(last_of(name@, name@.len() as int, '.') == Some(d));
        assert(tail@ == name@.subrange(d + 1, name@.len() as int));
    }
    let lowered = to_ascii_lower(&tail);
    Some(string_from(&lowered))
}

/// The file-type icons already looked up, by icon key.
pub struct IconCache<T> {
    entries: Vec<(String, T)>,
}

/// The map held by the first `n` entries, later entries winning.
pub open spec fn entries_map<T>(entries: Seq<(String, T)>, n: int) -> Map<Seq<char>, T>
    decreases n,
{
    if n <= 0 {
        Map::empty()
    } else {
        entries_map(entries, n - 1).insert(entries[n - 1].0@, entries[n - 1].1)
    }
}

/// No key is held twice.
pub open spec fn distinct_keys<T>(entries: Seq<(String, T)>) -> bool {
    forall|i: int, j: int| 0 <= i < j < entries.len() ==> entries[i].0@ != entries[j].0@
}

proof fn lemma_entries_map<T>(entries: Seq<(String, T)>, n: int)
    requires
        0 <= n <= entries.len(),
        distinct_keys(entries),
    ensures
        forall|k: Seq<char>|
            entries_map(entries, n).contains_key(k) <==> exists|i: int| 0 <= i < n && entries[i].0@ == k,
        forall|i: int| 0 <= i < n ==> entries_map(entries, n)[#[trigger] entries[i].0@] == entries[i].1,
    decreases n,
{
    if n > 0 {
        lemma_entries_map(entries, n - 1);
        let m = entries_map(entries, n);
        assert forall|k: Seq<char>| m.contains_key(k) <==> exists|i: int| 0 <= i < n && entries[i].0@ == k by {
            if m.contains_key(k) && k != entries[n - 1].0@ {
                assert(entries_map(entries, n - 1).contains_key(k));
            }
            if k == entries[n - 1].0@ {
                assert(entries[n - 1].0@ == k);
            }
        }
        assert forall|i: int| 0 <= i < n implies m[#[trigger] entries[i].0@] == entries[i].1 by {
            if i < n - 1 {
                assert(entries[i].0@ != entries[n - 1].0@);
            }
        }
    }
}

impl<T> View for IconCache<T> {
    type V = Map<Seq<char>, T>;

    closed spec fn view(&self) -> Map<Seq<char>, T> {
        entries_map(self.entries@, self.entries@.len() as int)
    }
}

impl<T> IconCache<T> {
    /// No key is held twice.
    pub closed spec fn well_formed(&self) -> bool {
        distinct_keys(self.entries@)
    }

    /// An empty cache.
    pub fn new() -> (r: Self)
        ensures
            r.well_formed(),
            r@ == Map::<Seq<char>, T>::empty(),
    {
        IconCache { entries: Vec::new() }
    }

    fn find(&self, key: &str) -> (r: Option<usize>)
        requires
            self.well_formed(),
        ensures
            match r {
                Some(i) => i < self.entries@.len() && self.entries@[i as int].0@ == key@,
                None => !self@.contains_key(key@),
            },
    {
        proof {
            lemma_entries_map(self.entries@, self.entries@.len() as int);
        }
        let target = chars_of(key);
        let mut i: usize = 0;
        while i < self.entries.len()
            invariant
                i <= self.entries@.len(),
                target@ == key@,
                forall|k: int| 0 <= k < i ==> self.entries@[k].0@ != key@,
            decreases self.entries@.len() - i,
        {
            let here = chars_of(self.entries[i].0.as_str());
            if same_text(&here, &target) {
                return Some(i);
            }
            i = i + 1;
        }
        None
    }

    /// The icon cached under `key`, if any.
    pub fn get(&self, key: &str) -> (r: Option<&T>)
        requires
            self.well_formed(),
        ensures
            match r {
                Some(v) => self@.contains_key(key@) && *v == self@[key@],
                None => !self@.contains_key(key@),
            },
    {
        proof {
            lemma_entries_map(self.entries@, self.entries@.len() as int);
        }
        match self.find(key) {
            Some(i) => Some(&self.entries[i].1),
            None => None,
        }
    }

    /// Caches `icon` under `key`, which is not cached yet.
    fn add(&mut self, key: &str, icon: T)
        requires
            old(self).well_formed(),
            !old(self)@.contains_key(key@),
        ensures
            final(self).well_formed(),
            final(self)@ == old(self)@.insert(key@, icon),
    {
        proof {
            lemma_entries_map(self.entries@, self.entries@.len() as int);
        }
        let ghost before = self.entries@;
        self.entries.push((owned(key), icon));
        proof {
            assert(self.entries@.drop_last() == before);
            assert forall|i: int, j: int| 0 <= i < j < self.entries@.len() implies self.entries@[i].0@
                != self.entries@[j].0@ by {
                if j == before.len() {
                    assert(before[i].0@ != key@) by {
                        if before[i].0@ == key@ {
                            assert(entries_map(before, before.len() as int).contains_key(key@));
                        }
                    }
                } else {
                    assert(self.entries@[i] == before[i]);
                    assert(self.entries@[j] == before[j]);
                }
            }
            assert(entries_map(self.entries@, before.len() as int) == entries_map(before, before.len() as int))
                by {
                lemma_entries_prefix(self.entries@, before, before.len() as int);
            }
        }
    }
}

proof fn lemma_entries_prefix<T>(a: Seq<(String, T)>, b: Seq<(String, T)>, n: int)
    requires
        0 <= n <= b.len(),
        n <= a.len(),
        forall|i: int| 0 <= i < n ==> a[i] == b[i],
    ensures
        entries_map(a, n) == entries_map(b, n),
    decreases n,
{
    if n > 0 {
        lemma_entries_prefix(a, b, n - 1);
    }
}

/// Which icon a row shows, with the icon cache filled as needed: a folder
/// shows the folder picture and leaves the cache as it is; a file shows
/// the icon cached under its key (see `icon_key`), which `make` creates
/// when the key is new.  An icon already cached is kept, and the cache
/// gains at most that key.
pub fn paint_icon_cached<T, F: FnOnce() -> T>(
    cache: &mut IconCache<T>,
    is_dir: bool,
    name: &str,
    make: F,
) -> (r: Option<String>)
    requires
        old(cache).well_formed(),
        make.requires(()),
    ensures
        final(cache).well_formed(),
        is_dir ==> r is None && final(cache)@ == old(cache)@,
        !is_dir ==> (r matches Some(k) && {
            &&& k@ == icon_key(name@)
            &&& final(cache)@.contains_key(k@)
            &&& final(cache)@.dom() == old(cache)@.dom().insert(k@)
            &&& old(cache)@.contains_key(k@) ==> final(cache)@ == old(cache)@
            &&& !old(cache)@.contains_key(k@) ==> exists|icon: T|
                make.ensures((), icon) && final(cache)@ == old(cache)@.insert(k@, icon)
        }),
{
    let key = paint_icon(is_dir, name);
    match key {
        None => None,
        Some(k) => {
            match cache.find(k.as_str()) {
                Some(_) => {
                    proof {
                        lemma_entries_map(cache.entries@, cache.entries@.len() as int);
                    }
                    assert(old(cache)@.dom().insert(k@) =~= old(cache)@.dom());
                },
                None => {
                    let icon = make();
                    cache.add(k.as_str(), icon);
                },
            }
            Some(k)
        },
    }
}

/// The folder to open for an item: the item itself when it is a folder,
/// else its parent, or `/` when it has none.
pub fn open_folder(path: &str, is_dir: bool) -> (r: String)
    ensures
        is_dir ==> r@ == path@,
        !is_dir ==> r@ == match path_parent(path@) {
            Some(p) => p,
            None => "/"@,
        },
{
    if is_dir {
        owned(path)
    } else {
        match parent_of(path) {
            Some(p) => p,
            None => owned("/"),
        }
    }
}

/// Whether a row is painted as an odd zebra stripe.
pub fn zebra_odd(zebra: bool, position: u32) -> (r: bool)
    ensures
        r == (zebra && position % 2 == 1),
{
    zebra && position % 2 == 1
}

/// The folded-away folders of the tree, by path.
pub struct FoldSet {
    paths: Vec<String>,
}

impl View for FoldSet {
    type V = Set<Seq<char>>;

    closed spec fn view(&self) -> Set<Seq<char>> {
        self.paths@.map_values(|p: String| p@).to_set()
    }
}

impl FoldSet {
    /// No path is held twice.
    pub closed spec fn well_formed(&self) -> bool {
        forall|i: int, j: int|
            0 <= i < j < self.paths@.len() ==> self.paths@[i]@ != self.paths@[j]@
    }

    /// Nothing folded.
    pub fn new() -> (r: Self)
        ensures
            r.well_formed(),
            r@ == Set::<Seq<char>>::empty(),
    {
        let r = FoldSet { paths: Vec::new() };
        assert(r.paths@.map_values(|p: String| p@) == Seq::<Seq<char>>::empty());
        r
    }

    fn find(&self, path: &str) -> (r: Option<usize>)
        ensures
            match r {
                Some(i) => i < self.paths@.len() && self.paths@[i as int]@ == path@,
                None => !self@.contains(path@),
            },
    {
        let target = chars_of(path);
        let mut i: usize = 0;
        while i < self.paths.len()
            invariant
                i <= self.paths@.len(),
                target@ == path@,
                forall|k: int| 0 <= k < i ==> self.paths@[k]@ != path@,
            decreases self.paths@.len() - i,
        {
            let here = chars_of(self.paths[i].as_str());
            if same_text(&here, &target) {
                return Some(i);
            }
            i = i + 1;
        }
        proof {
            let views = self.paths@.map_values(|p: String| p@);
            if views.to_set().contains(path@) {
                let k = choose|k: int| 0 <= k < views.len() && views[k] == path@;
                assert(self.paths@[k]@ == path@);
            }
        }
        None
    }

    /// Whether `path` is folded.
    pub fn contains(&self, path: &str) -> (r: bool)
        ensures
            r == self@.contains(path@),
    {
        match self.find(path) {
            Some(i) => {
                proof {
                    let views = self.paths@.map_values(|p: String| p@);
                    assert(views[i as int] == path@);
                }
                true
            },
            None => false,
        }
    }

    /// Folds everything open and unfolds nothing: forgets all paths.
    pub fn clear(&mut self)
        ensures
            final(self).well_formed(),
            final(self)@ == Set::<Seq<char>>::empty(),
    {
        self.paths = Vec::new();
        assert(self.paths@.map_values(|p: String| p@) == Seq::<Seq<char>>::empty());
    }

    /// Unfolds `path` when it is folded, else folds it.
    pub fn toggle(&mut self, path: &str)
        requires
            old(self).well_formed(),
        ensures
            final(self).well_formed(),
            old(self)@.contains(path@) ==> final(self)@ == old(self)@.remove(path@),
            !old(self)@.contains(path@) ==> final(self)@ == old(self)@.insert(path@),
    {
        let ghost before = self.paths@.map_values(|p: String| p@);
        match self.find(path) {
            Some(i) => {
                self.paths.remove(i);
                proof {
                    let after = self.paths@.map_values(|p: String| p@);
                    assert forall|x: int, y: int| 0 <= x < y < self.paths@.len() implies self.paths@[x]@
                        != self.paths@[y]@ by {
                        let bx = if x < i {
                            x
                        } else {
                            x + 1
                        };
                        let by = if y < i {
                            y
                        } else {
                            y + 1
                        };
                        assert(self.paths@[x] == old(self).paths@[bx]);
                        assert(self.paths@[y] == old(self).paths@[by]);
                    }
                    assert(after == before.remove(i as int));
                    assert(before[i as int] == path@);
                    assert forall|x: Seq<char>| after.to_set().contains(x) <==> before.to_set().remove(path@).contains(x) by {
                        if after.to_set().contains(x) {
                            let k = choose|k: int| 0 <= k < after.len() && after[k] == x;
                            let kb = if k < i {
                                k
                            } else {
                                k + 1
                            };
                            assert(before[kb] == x);
                            assert(kb != i);
                        }
                        if before.to_set().remove(path@).contains(x) {
                            let k = choose|k: int| 0 <= k < before.len() && before[k] == x;
                            assert(k != i);
                            let ka = if k < i {
                                k
                            } else {
                                k - 1
                            };
                            assert(after[ka] == x);
                        }
                    }
                    assert(after.to_set() == before.to_set().remove(path@));
                }
            },
            None => {
                self.paths.push(owned(path));
                proof {
                    let after = self.paths@.map_values(|p: String| p@);
                    assert forall|x: int, y: int| 0 <= x < y < self.paths@.len() implies self.paths@[x]@
                        != self.paths@[y]@ by {
                        if y == before.len() {
                            assert(before[x] == old(self).paths@[x]@);
                            assert(before.to_set().contains(before[x]));
                        }
                    }
                    assert(after == before.push(path@));
                    assert forall|x: Seq<char>| after.to_set().contains(x) <==> before.to_set().insert(path@).contains(x) by {
                        if after.to_set().contains(x) {
                            let k = choose|k: int| 0 <= k < after.len() && after[k] == x;
                            if k < before.len() {
                                assert(before[k] == x);
                            }
                        }
                        if before.to_set().contains(x) {
                            let k = choose|k: int| 0 <= k < before.len() && before[k] == x;
                            assert(after[k] == x);
                        }
                        if x == path@ {
                            assert(after[before.len() as int] == x);
                        }
                    }
                    assert(after.to_set() == before.to_set().insert(path@));
                }
            },
        }
    }
}

/// Toggling a folder twice leaves the fold state as it was.
pub proof fn toggle_twice(folded: Set<Seq<char>>, path: Seq<char>)
    ensures
        ({
            let once = if folded.contains(path) {
                folded.remove(path)
            } else {
                folded.insert(path)
            };
            let twice = if once.contains(path) {
                once.remove(path)
            } else {
                once.insert(path)
            };
            twice == folded
        }),
{
    if folded.contains(path) {
        assert(folded.remove(path).insert(path) =~= folded);
    } else {
        assert(folded.insert(path).remove(path) =~= folded);
    }
}

/// The fold button of a tree row: its label and whether it can be pressed.
/// A row with children shows `▾` when open and `▸` when folded; a folder
/// without children shows `▸`, a file `·`, neither pressable.
pub fn twist_label(has_kids: bool, folded: bool, is_dir: bool) -> (r: (&'static str, bool))
    ensures
        r.1 == has_kids,
        has_kids && !folded ==> r.0@ == "▾"@,
        has_kids && folded ==> r.0@ == "▸"@,
        !has_kids && is_dir ==> r.0@ == "▸"@,
        !has_kids && !is_dir ==> r.0@ == "·"@,
{
    if has_kids {
        (if !folded {
            "▾"
        } else {
            "▸"
        }, true)
    } else {
        (if is_dir {
            "▸"
        } else {
            "·"
        }, false)
    }
}

/// How far a tree row is indented: 6 pixels, plus 16 per level of depth,
/// the depth read as an `i32` (`as i32`).
pub fn tree_indent(depth: u32) -> (r: i32)
    requires
        i32::MIN <= crate::patch::as_signed(depth) * 16 + 6 <= i32::MAX,
    ensures
        r == crate::patch::as_signed(depth) * 16 + 6,
{
    let d: i64 = if depth <= 2147483647u32 {
        depth as i64
    } else {
        depth as i64 - 4294967296i64
    };
    (6 + d * 16) as i32
}

/// The metrics of a list row at a zoom level and spacing: its height, the
/// margin above and below, and its icon size.
pub fn list_metrics(zoom: u8, spacing: u8) -> (r: (i32, i32, i32))
    ensures
        r.0 == 24 + (if zoom < 39 {
            zoom as int
        } else {
            39
        }) / 6,
        r.1 == 1 + spacing / 3,
        r.2 == 18 + (if zoom < 39 {
            zoom as int
        } else {
            39
        }) / 6,
{
    let z: i32 = if zoom < 39 {
        zoom as i32
    } else {
        39
    };
    (24 + z / 6, 1 + (spacing as i32) / 3, 18 + z / 6)
}

/// The side of a grid cell for a zoom's cell size: 24 less, at least 96.
pub fn grid_cell_px(cell_px: i32) -> (r: i32)
    ensures
        r == if cell_px as int - 24 > 96 {
            cell_px - 24
        } else {
            96
        },
{
    if cell_px > 120 {
        cell_px - 24
    } else {
        96
    }
}

/// The icon size inside a grid cell: 66 less than the cell, within 32..=96.
pub fn grid_icon_px(cell: i32) -> (r: i32)
    ensures
        r == if cell as int - 66 < 32 {
            32
        } else if cell as int - 66 > 96 {
            96
        } else {
            cell - 66
        },
{
    if cell < 98 {
        32
    } else if cell > 162 {
        96
    } else {
        cell - 66
    }
}

/// How many grid columns fit a width: cells with 12 pixels between, at
/// least one; `None` while the grid has no width yet (one pixel or less).
pub fn grid_columns(width: i32, cell: i32) -> (r: Option<u32>)
    requires
        0 <= cell <= i32::MAX - 12,
    ensures
        width <= 1 ==> r is None,
        width > 1 ==> r == Some(
            if width as int / (cell as int + 12) > 1 {
                (width as int / (cell as int + 12)) as u32
            } else {
                1u32
            },
        ),
{
    if width <= 1 {
        return None;
    }
    let cols = width / (cell + 12);
    if cols > 1 {
        Some(cols as u32)
    } else {
        Some(1)
    }
}

/// FNV-1a (32-bit) over `bytes`.
pub open spec fn fnv1a(bytes: Seq<u8>) -> u32
    decreases bytes.len(),
{
    if bytes.len() == 0 {
        2166136261u32
    } else {
        (fnv1a(bytes.drop_last()) ^ (bytes.last() as u32)).wrapping_mul(16777619u32)
    }
}

/// The hue (degrees) of chart tile `i` for `path`: FNV-1a over the path's
/// UTF-8 bytes, plus 17 times `i` taken as a `u32`, wrapping, modulo 360.
pub fn tile_hue(i: usize, path: &str) -> (r: u32)
    requires
        (i as u32) * 17 <= u32::MAX,
    ensures
        r == fnv1a(encode_utf8(path@)).wrapping_add(((i as u32) * 17) as u32) % 360,
{
    let bytes = path.as_bytes();
    let mut h: u32 = 2166136261;
    let n = bytes.len();
    for k in 0..n
        invariant
            n == bytes@.len(),
            bytes@ == encode_utf8(path@),
            h == fnv1a(bytes@.take(k as int)),
    {
        proof {
            assert(bytes@.take(k + 1).drop_last() == bytes@.take(k as int));
            assert(bytes@.take(k + 1).last() == bytes@[k as int]);
        }
        h = (h ^ (bytes[k] as u32)).wrapping_mul(16777619);
    }
    proof {
        assert(bytes@.take(n as int) == bytes@);
    }
    let step: u32 = (i as u32) * 17;
    h = h.wrapping_add(step);
    h % 360
}

/// The most tiles the weight chart draws.
pub const MAX_TILES: usize = 400;

/// The tiles the weight chart draws, as positions into `weights`: the
/// heaviest first (ties in their given order), at most `MAX_TILES`.
pub fn chart_tiles(weights: &Vec<u64>) -> (r: Vec<usize>)
    ensures
        exists|order: Seq<usize>|
            #![trigger is_permutation(order, weights@.len())]
            {
                &&& is_permutation(order, weights@.len())
                &&& stably_sorted(LargestFirst, weights@, order)
                &&& r@ == order.take(
                    if weights@.len() < MAX_TILES {
                        weights@.len() as int
                    } else {
                        MAX_TILES as int
                    },
                )
            },
{
    let order = stable_order(&LargestFirst, weights);
    let keep: usize = if weights.len() < MAX_TILES {
        weights.len()
    } else {
        MAX_TILES
    };
    let mut out: Vec<usize> = Vec::new();
    let mut k: usize = 0;
    while k < keep
        invariant
            keep <= order@.len(),
            order@.len() == weights@.len(),
            k <= keep,
            out@ == order@.take(k as int),
        decreases keep - k,
    {
        out.push(order[k]);
        assert(order@.take(k + 1) == order@.take(k as int).push(order@[k as int]));
        k = k + 1;
    }
    out
}

/// The path a hit takes in the weight chart: relative to the browsed
/// folder when there is one (hits outside it are left out), else as it
/// is; an empty path is left out.
pub open spec fn chart_path_of(path: Seq<char>, dir: Option<Seq<char>>) -> Option<Seq<char>> {
    let scoped = match dir {
        Some(root) => path_strip_prefix(path, root),
        None => Some(path),
    };
    match scoped {
        Some(s) => if s.len() == 0 {
            None
        } else {
            Some(s)
        },
        None => None,
    }
}

/// The path a hit takes in the weight chart (see `chart_path_of`).
pub fn chart_path(path: &str, dir: Option<&str>) -> (r: Option<String>)
    ensures
        crate::text::opt_text(r) == chart_path_of(
            path@,
            match dir {
                Some(d) => Some(d@),
                None => None,
            },
        ),
{
    let scoped = match dir {
        Some(root) => strip_prefix_of(path, root),
        None => Some(owned(path)),
    };
    match scoped {
        Some(s) => if s.as_str().is_empty() {
            None
        } else {
            Some(s)
        },
        None => None,
    }
}

} // verus!
