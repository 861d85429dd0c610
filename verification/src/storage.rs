//! The storage chart: which slices it shows (the largest children and one
//! "Other" slice for the rest), and the texts around it.

use vstd::prelude::*;

use crate::format::{human_size, size_text};
use crate::order::{arrange, arranged, is_permutation, stable_order, stably_sorted, Precedence};
use crate::text::{decimal, owned, push_decimal, push_text};

verus! {

/// Children shown by name before the rest is gathered into "Other".
pub const SHOWN_CHILDREN: usize = 63;

/// One slice of the chart: a folder or file, or the "Other" remainder.
pub struct StorageEntry {
    pub id: u32,
    pub name: String,
    pub path: String,
    pub is_dir: bool,
    pub bytes: u64,
    pub entries: u64,
}

/// `a + b`, held at `u64::MAX`.
pub open spec fn saturating_sum(a: nat, b: nat) -> nat {
    if a + b > u64::MAX {
        u64::MAX as nat
    } else {
        a + b
    }
}

/// The saturating sum of the bytes of `nodes[from..to]`.
pub open spec fn bytes_between(nodes: Seq<StorageEntry>, from: int, to: int) -> nat
    decreases to - from,
{
    if to <= from {
        0
    } else {
        saturating_sum(bytes_between(nodes, from, to - 1), nodes[to - 1].bytes as nat)
    }
}

/// The saturating sum of the entry counts of `nodes[from..to]`.
pub open spec fn entries_between(nodes: Seq<StorageEntry>, from: int, to: int) -> nat
    decreases to - from,
{
    if to <= from {
        0
    } else {
        saturating_sum(entries_between(nodes, from, to - 1), nodes[to - 1].entries as nat)
    }
}

/// The "Other" slice: no id, no folder, the given path and amounts.
pub open spec fn is_other(e: StorageEntry, path: Seq<char>, bytes: nat, entries: nat) -> bool {
    &&& e.id == u32::MAX
    &&& e.name@ == "Other"@
    &&& e.path@ == path
    &&& !e.is_dir
    &&& e.bytes == bytes
    &&& e.entries == entries
}

/// The largest descendants on top: bytes, descending.
pub struct LargestFirst;

impl Precedence<u64> for LargestFirst {
    open spec fn precedes(self, a: u64, b: u64) -> bool {
        a >= b
    }

    proof fn precedes_total(self, a: u64, b: u64) {
    }

    proof fn precedes_transitive(self, a: u64, b: u64, c: u64) {
    }

    fn precedes_exec(&self, a: &u64, b: &u64) -> (r: bool) {
        *a >= *b
    }
}

fn sum_bytes(nodes: &Vec<StorageEntry>, from: usize) -> (r: u64)
    requires
        from <= nodes@.len(),
    ensures
        r as nat == bytes_between(nodes@, from as int, nodes@.len() as int),
{
    let mut total: u64 = 0;
    let mut k = from;
    while k < nodes.len()
        invariant
            from <= k <= nodes@.len(),
            total as nat == bytes_between(nodes@, from as int, k as int),
        decreases nodes@.len() - k,
    {
        total = total.saturating_add(nodes[k].bytes);
        k = k + 1;
    }
    total
}

fn sum_entries(nodes: &Vec<StorageEntry>, from: usize) -> (r: u64)
    requires
        from <= nodes@.len(),
    ensures
        r as nat == entries_between(nodes@, from as int, nodes@.len() as int),
{
    let mut total: u64 = 0;
    let mut k = from;
    while k < nodes.len()
        invariant
            from <= k <= nodes@.len(),
            total as nat == entries_between(nodes@, from as int, k as int),
        decreases nodes@.len() - k,
    {
        total = total.saturating_add(nodes[k].entries);
        k = k + 1;
    }
    total
}

fn other_entry(path: String, bytes: u64, entries: u64) -> (e: StorageEntry)
    ensures
        is_other(e, path@, bytes as nat, entries as nat),
{
    StorageEntry { id: u32::MAX, name: owned("Other"), path, is_dir: false, bytes, entries }
}

/// The slices of a live folder listing: sorted by bytes, largest first
/// (stable), the first 63 kept, the bytes of the rest (saturating) in one
/// "Other" slice when there are any.
pub fn trim_live_nodes(nodes: Vec<StorageEntry>) -> (out: Vec<StorageEntry>)
    ensures
        exists|order: Seq<usize>|
            #![trigger arranged(nodes@, order)]
            {
                let sorted = arranged(nodes@, order);
                let kept = if sorted.len() < SHOWN_CHILDREN {
                    sorted.len() as int
                } else {
                    SHOWN_CHILDREN as int
                };
                let rest = bytes_between(sorted, kept, sorted.len() as int);
                &&& is_permutation(order, nodes@.len())
                &&& stably_sorted(LargestFirst, nodes@.map_values(|e: StorageEntry| e.bytes), order)
                &&& out@.take(kept) == sorted.take(kept)
                &&& rest == 0 ==> out@.len() == kept
                &&& rest > 0 ==> out@.len() == kept + 1 && is_other(out@[kept], Seq::empty(), rest, 0)
            },
{
    let n = nodes.len();
    let mut keys: Vec<u64> = Vec::new();
    for k in 0..n
        invariant
            n == nodes@.len(),
            keys@ == nodes@.map_values(|e: StorageEntry| e.bytes).take(k as int),
    {
        keys.push(nodes[k].bytes);
        proof {
            assert(nodes@.map_values(|e: StorageEntry| e.bytes).take(k + 1) == nodes@.map_values(
                |e: StorageEntry| e.bytes,
            ).take(k as int).push(nodes@[k as int].bytes));
        }
    }
    assert(keys@ == nodes@.map_values(|e: StorageEntry| e.bytes));
    let order = stable_order(&LargestFirst, &keys);
    let ghost input = nodes@;
    let mut sorted = arrange(nodes, &order);
    let kept = if sorted.len() < SHOWN_CHILDREN {
        sorted.len()
    } else {
        SHOWN_CHILDREN
    };
    let remaining = sum_bytes(&sorted, kept);
    let ghost whole = sorted@;
    sorted.truncate(kept);
    if remaining > 0 {
        sorted.push(other_entry(String::new(), remaining, 0));
        proof {
            assert(sorted@.take(kept as int) == whole.take(kept as int));
        }
    } else {
        assert(sorted@.take(kept as int) == whole.take(kept as int));
    }
    assert(whole == arranged(input, order@));
    sorted
}

/// The kept live slices run from largest to smallest, equal sizes in
/// listing order.
pub proof fn largest_first_order(bytes: Seq<u64>, order: Seq<usize>)
    requires
        is_permutation(order, bytes.len()),
        stably_sorted(LargestFirst, bytes, order),
    ensures
        forall|i: int, j: int|
            0 <= i < j < order.len() ==> bytes[order[i] as int] >= bytes[order[j] as int],
        forall|i: int, j: int|
            0 <= i < j < order.len() && bytes[order[i] as int] == bytes[order[j] as int] ==> order[i]
                < order[j],
{
    assert forall|i: int, j: int| 0 <= i < j < order.len() implies bytes[order[i] as int]
        >= bytes[order[j] as int] && (bytes[order[i] as int] == bytes[order[j] as int] ==> order[i]
        < order[j]) by {
        assert(crate::order::in_order(LargestFirst, bytes, order[i], order[j]));
    }
}

/// A listing of indexed children with the remainder of their parent: the
/// children, then one "Other" slice at `other_path` holding what the parent
/// has beyond them (bytes and entries, each saturating at zero), when the
/// measure in use (`by_bytes`: bytes, else entries) leaves anything over.
pub fn with_other(
    children: Vec<StorageEntry>,
    total_bytes: u64,
    total_entries: u64,
    other_path: String,
    by_bytes: bool,
) -> (out: Vec<StorageEntry>)
    ensures
        ({
            let shown_bytes = bytes_between(children@, 0, children@.len() as int);
            let shown_entries = entries_between(children@, 0, children@.len() as int);
            let hidden_bytes = if total_bytes >= shown_bytes {
                (total_bytes - shown_bytes) as nat
            } else {
                0
            };
            let hidden_entries = if total_entries >= shown_entries {
                (total_entries - shown_entries) as nat
            } else {
                0
            };
            let more = (by_bytes && hidden_bytes > 0) || (!by_bytes && hidden_entries > 0);
            &&& out@.take(children@.len() as int) == children@
            &&& !more ==> out@.len() == children@.len()
            &&& more ==> out@.len() == children@.len() + 1 && is_other(
                out@[children@.len() as int],
                other_path@,
                hidden_bytes,
                hidden_entries,
            )
        }),
{
    let shown_bytes = sum_bytes(&children, 0);
    let shown_entries = sum_entries(&children, 0);
    let hidden_bytes = total_bytes.saturating_sub(shown_bytes);
    let hidden_entries = total_entries.saturating_sub(shown_entries);
    let mut out = children;
    let ghost before = out@;
    if (by_bytes && hidden_bytes > 0) || (!by_bytes && hidden_entries > 0) {
        out.push(other_entry(other_path, hidden_bytes, hidden_entries));
        assert(out@.take(before.len() as int) == before);
    } else {
        assert(out@.take(before.len() as int) == before);
    }
    out
}

/// The id a live (not indexed) node gets from its listing position: counted
/// down from the top of the id range, below the "Other" id.
pub fn live_node_id(index: u32) -> (r: u32)
    requires
        index < u32::MAX,
    ensures
        r == u32::MAX - (index + 1),
{
    u32::MAX.saturating_sub(index + 1)
}

/// Whether the chart weighs by bytes: some node has any.
pub fn weighs_by_bytes(nodes: &Vec<StorageEntry>) -> (r: bool)
    ensures
        r == exists|k: int| 0 <= k < nodes@.len() && nodes@[k].bytes > 0,
{
    let mut k: usize = 0;
    while k < nodes.len()
        invariant
            k <= nodes@.len(),
            forall|j: int| 0 <= j < k ==> nodes@[j].bytes == 0,
        decreases nodes@.len() - k,
    {
        if nodes[k].bytes > 0 {
            return true;
        }
        k = k + 1;
    }
    false
}

/// The volume line: free space (never more than the total) of the total.
pub fn capacity_text(total: u64, free: u64) -> (r: String)
    ensures
        r@ == size_text(
            if free < total {
                free as nat
            } else {
                total as nat
            },
        ) + " free of "@ + size_text(total as nat) + " · volume"@,
{
    let shown = if free < total {
        free
    } else {
        total
    };
    let mut s = human_size(shown);
    push_text(&mut s, " free of ");
    let t = human_size(total);
    push_text(&mut s, t.as_str());
    push_text(&mut s, " · volume");
    s
}

/// The detail line for the chart's current folder: its apparent size when
/// the index knows sizes, else its item count.
pub fn folder_detail(bytes: u64, entries: u64, sized: bool) -> (r: String)
    ensures
        sized ==> r@ == size_text(bytes as nat) + " apparent size · click center to go up"@,
        !sized ==> r@ == decimal(entries as nat) + " indexed items · click center to go up"@,
{
    if sized {
        let mut s = human_size(bytes);
        push_text(&mut s, " apparent size · click center to go up");
        s
    } else {
        let mut s = String::new();
        push_decimal(&mut s, entries);
        push_text(&mut s, " indexed items · click center to go up");
        s
    }
}

/// The detail line for the whole index: its apparent size when it knows
/// sizes, else its item count, then the number of indexed locations.
pub fn global_detail(total_bytes: u64, total_entries: u64, roots: u64) -> (r: String)
    ensures
        total_bytes > 0 ==> r@ == size_text(total_bytes as nat) + " apparent size · "@ + decimal(
            roots as nat,
        ) + " indexed locations"@,
        total_bytes == 0 ==> r@ == decimal(total_entries as nat)
            + " items · refresh Catalog for sizes · "@ + decimal(roots as nat) + " indexed locations"@,
{
    let mut s = String::new();
    if total_bytes > 0 {
        s = human_size(total_bytes);
        push_text(&mut s, " apparent size · ");
    } else {
        push_decimal(&mut s, total_entries);
        push_text(&mut s, " items · refresh Catalog for sizes · ");
    }
    push_decimal(&mut s, roots);
    push_text(&mut s, " indexed locations");
    s
}

/// The sum of `sizes`, stopping at `u64::MAX`.
pub open spec fn capped_sum(sizes: Seq<u64>) -> nat
    decreases sizes.len(),
{
    if sizes.len() == 0 {
        0
    } else {
        saturating_sum(capped_sum(sizes.drop_last()), sizes.last() as nat)
    }
}

/// The chart's center for a live folder: the sizes of its measured
/// entries added up (saturating).
pub fn live_center_text(sizes: &Vec<u64>) -> (r: String)
    ensures
        r@ == size_text(capped_sum(sizes@)),
{
    let mut total: u64 = 0;
    let mut k: usize = 0;
    while k < sizes.len()
        invariant
            k <= sizes@.len(),
            total as nat == capped_sum(sizes@.take(k as int)),
        decreases sizes@.len() - k,
    {
        proof {
            assert(sizes@.take(k + 1).drop_last() == sizes@.take(k as int));
            assert(sizes@.take(k + 1).last() == sizes@[k as int]);
        }
        total = total.saturating_add(sizes[k]);
        k = k + 1;
    }
    assert(sizes@.take(sizes@.len() as int) == sizes@);
    human_size(total)
}

/// The chart's center for an indexed folder (or the whole index): its
/// size when the index knows sizes, else its item count.
pub fn indexed_center_text(sized: bool, bytes: u64, entries: u64) -> (r: String)
    ensures
        sized ==> r@ == size_text(bytes as nat),
        !sized ==> r@ == decimal(entries as nat) + " items"@,
{
    if sized {
        human_size(bytes)
    } else {
        let mut s = String::new();
        push_decimal(&mut s, entries);
        push_text(&mut s, " items");
        s
    }
}

/// The line under the chart for a hovered slice: its name and size.
pub fn hover_text(name: &str, bytes: u64) -> (r: String)
    ensures
        r@ == name@ + " · "@ + size_text(bytes as nat),
{
    let mut s = owned(name);
    push_text(&mut s, " · ");
    let size = human_size(bytes);
    push_text(&mut s, size.as_str());
    s
}

/// How much a slice weighs in the chart: its size or its item count, at
/// least one.
pub fn slice_weight(bytes: u64, entries: u64, by_bytes: bool) -> (r: u64)
    ensures
        r == if by_bytes {
            if bytes > 1 {
                bytes
            } else {
                1
            }
        } else if entries > 1 {
            entries
        } else {
            1
        },
{
    let w = if by_bytes {
        bytes
    } else {
        entries
    };
    if w > 1 {
        w
    } else {
        1
    }
}

} // verus!
