//! The result list model: positions of hits and the row cache kept across
//! result updates.

use vstd::prelude::*;

verus! {

/// Cached rows beyond this many are all dropped on an update.
pub const ROW_CACHE_LIMIT: usize = 512;

/// The first position of `id` in `ids`.
pub open spec fn first_position(ids: Seq<u32>, id: u32, i: int) -> Option<int>
    decreases ids.len() - i,
{
    if i < 0 || i >= ids.len() {
        None
    } else if ids[i] == id {
        Some(i)
    } else {
        first_position(ids, id, i + 1)
    }
}

/// The list position of hit `id`, when it is listed at a position that
/// fits a `u32`.
pub fn position(ids: &Vec<u32>, id: u32) -> (r: Option<u32>)
    ensures
        match first_position(ids@, id, 0) {
            Some(p) => if p <= u32::MAX {
                r == Some(p as u32)
            } else {
                r is None
            },
            None => r is None,
        },
{
    let mut i: usize = 0;
    while i < ids.len()
        invariant
            i <= ids@.len(),
            first_position(ids@, id, 0) == first_position(ids@, id, i as int),
        decreases ids@.len() - i,
    {
        if ids[i] == id {
            if i <= u32::MAX as usize {
                return Some(i as u32);
            } else {
                return None;
            }
        }
        i = i + 1;
    }
    None
}

/// The cached rows kept when the hits become `ids`: those still listed,
/// unless more than `ROW_CACHE_LIMIT` remain, when none are kept.
pub open spec fn kept_rows(cached: Seq<u32>, ids: Seq<u32>) -> Seq<u32> {
    let still = cached.filter(|c: u32| ids.contains(c));
    if still.len() > ROW_CACHE_LIMIT {
        Seq::empty()
    } else {
        still
    }
}

/// Which cached rows survive a result update (see `kept_rows`).
pub fn keep_cached(cached: &Vec<u32>, ids: &Vec<u32>) -> (r: Vec<u32>)
    ensures
        r@ == kept_rows(cached@, ids@),
{
    let mut still: Vec<u32> = Vec::new();
    let n = cached.len();
    for k in 0..n
        invariant
            n == cached@.len(),
            still@ == cached@.take(k as int).filter(|c: u32| ids@.contains(c)),
    {
        let c = cached[k];
        let mut listed = false;
        let mut j: usize = 0;
        while j < ids.len()
            invariant
                j <= ids@.len(),
                listed == ids@.take(j as int).contains(c),
            decreases ids@.len() - j,
        {
            proof {
                let before = ids@.take(j as int);
                let after = ids@.take(j + 1);
                assert(after == before.push(ids@[j as int]));
                if after.contains(c) && !before.contains(c) {
                    let w = choose|w: int| 0 <= w < after.len() && after[w] == c;
                    if w < j {
                        assert(before[w] == c);
                    }
                }
                if before.contains(c) {
                    let w = choose|w: int| 0 <= w < before.len() && before[w] == c;
                    assert(after[w] == c);
                }
                if ids@[j as int] == c {
                    assert(after[j as int] == c);
                }
            }
            listed = listed || ids[j] == c;
            j = j + 1;
        }
        proof {
            assert(ids@.take(ids@.len() as int) == ids@);
            cached@.take(k as int).lemma_filter_push(c, |x: u32| ids@.contains(x));
            assert(cached@.take(k as int).push(c) == cached@.take(k + 1));
        }
        if listed {
            still.push(c);
        }
    }
    assert(cached@.take(n as int) == cached@);
    if still.len() > ROW_CACHE_LIMIT {
        Vec::new()
    } else {
        still
    }
}

/// The first position among `paths[i..]` spelled exactly `path`.
pub open spec fn first_path_position(paths: Seq<Seq<char>>, path: Seq<char>, i: int) -> Option<int>
    decreases paths.len() - i,
{
    if i < 0 || i >= paths.len() {
        None
    } else if paths[i] == path {
        Some(i)
    } else {
        first_path_position(paths, path, i + 1)
    }
}

/// The list position of the live row whose path is `path`, when it is
/// listed at a position that fits a `u32`.
pub fn path_position(paths: &Vec<String>, path: &str) -> (r: Option<u32>)
    ensures
        match first_path_position(paths@.map_values(|p: String| p@), path@, 0) {
            Some(p) => if p <= u32::MAX {
                r == Some(p as u32)
            } else {
                r is None
            },
            None => r is None,
        },
{
    let ghost pv = paths@.map_values(|p: String| p@);
    let target = crate::text::chars_of(path);
    let mut i: usize = 0;
    while i < paths.len()
        invariant
            i <= paths@.len(),
            pv == paths@.map_values(|p: String| p@),
            target@ == path@,
            first_path_position(pv, path@, 0) == first_path_position(pv, path@, i as int),
        decreases paths@.len() - i,
    {
        let c = crate::text::chars_of(paths[i].as_str());
        assert(pv[i as int] == paths@[i as int]@);
        if crate::text::same_text(&c, &target) {
            if i <= u32::MAX as usize {
                return Some(i as u32);
            } else {
                return None;
            }
        }
        i = i + 1;
    }
    None
}

} // verus!
