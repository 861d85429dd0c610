//! Stable ordering.  Every list the surface sorts (search rows, supplementary
//! text columns, folders-first grouping, chart slices) is ordered by one
//! verified stable merge sort over an index permutation.

use vstd::prelude::*;

verus! {

/// A total preorder on keys of type `K`: what `sort_by` with a consistent
/// comparator needs.  `rule.precedes(a, b)` means `a` may stand before `b`.
pub trait Precedence<K>: Sized {
    spec fn precedes(self, a: K, b: K) -> bool;

    proof fn precedes_total(self, a: K, b: K)
        ensures
            self.precedes(a, b) || self.precedes(b, a),
    ;

    proof fn precedes_transitive(self, a: K, b: K, c: K)
        requires
            self.precedes(a, b),
            self.precedes(b, c),
        ensures
            self.precedes(a, c),
    ;

    fn precedes_exec(&self, a: &K, b: &K) -> (r: bool)
        ensures
            r == self.precedes(*a, *b),
    ;
}

/// Keys at positions `x` and `y` may stand in this order, and if their keys
/// tie, the earlier position comes first.
pub open spec fn in_order<K, R: Precedence<K>>(rule: R, keys: Seq<K>, x: usize, y: usize) -> bool {
    &&& rule.precedes(keys[x as int], keys[y as int])
    &&& rule.precedes(keys[y as int], keys[x as int]) ==> x < y
}

/// `order` lists key positions sorted by key, ties kept in their given
/// order: the result of a stable sort.
pub open spec fn stably_sorted<K, R: Precedence<K>>(rule: R, keys: Seq<K>, order: Seq<usize>) -> bool {
    forall|i: int, j: int|
        0 <= i < j < order.len() ==> #[trigger] in_order(rule, keys, order[i], order[j])
}

/// `order` holds each position of `lo..hi` exactly once.
pub open spec fn covers(order: Seq<usize>, lo: int, hi: int) -> bool {
    &&& order.len() == hi - lo
    &&& forall|i: int| 0 <= i < order.len() ==> lo <= #[trigger] order[i] < hi
    &&& forall|i: int, j: int| 0 <= i < j < order.len() ==> order[i] != order[j]
}

/// `order` is a permutation of `0..n`.
pub open spec fn is_permutation(order: Seq<usize>, n: nat) -> bool {
    covers(order, 0, n as int)
}

/// The result of reordering `items` by `order`.
pub open spec fn arranged<T>(items: Seq<T>, order: Seq<usize>) -> Seq<T> {
    order.map_values(|k: usize| items[k as int])
}

proof fn lemma_reflexive<K, R: Precedence<K>>(rule: R, a: K)
    ensures
        rule.precedes(a, a),
{
    rule.precedes_total(a, a);
}

/// Merges two stably sorted runs covering `lo..mid` and `mid..hi`.
fn merge<K, R: Precedence<K>>(
    rule: &R,
    keys: &Vec<K>,
    left: Vec<usize>,
    right: Vec<usize>,
    Ghost(lo): Ghost<int>,
    Ghost(mid): Ghost<int>,
    Ghost(hi): Ghost<int>,
) -> (out: Vec<usize>)
    requires
        0 <= lo <= mid <= hi <= keys@.len(),
        covers(left@, lo, mid),
        covers(right@, mid, hi),
        stably_sorted(*rule, keys@, left@),
        stably_sorted(*rule, keys@, right@),
    ensures
        covers(out@, lo, hi),
        stably_sorted(*rule, keys@, out@),
{
    let mut out: Vec<usize> = Vec::new();
    let mut i: usize = 0;
    let mut j: usize = 0;
    let nl = left.len();
    let nr = right.len();
    while i < nl || j < nr
        invariant
            nl == left@.len(),
            nr == right@.len(),
            0 <= lo <= mid <= hi <= keys@.len(),
            covers(left@, lo, mid),
            covers(right@, mid, hi),
            stably_sorted(*rule, keys@, left@),
            stably_sorted(*rule, keys@, right@),
            i <= nl,
            j <= nr,
            out@.len() == i + j,
            stably_sorted(*rule, keys@, out@),
            forall|k: int| 0 <= k < out@.len() ==> lo <= #[trigger] out@[k] < hi,
            forall|k: int, m: int|
                0 <= k < out@.len() && i <= m < nl ==> #[trigger] in_order(
                    *rule,
                    keys@,
                    out@[k],
                    left@[m],
                ),
            forall|k: int, m: int|
                0 <= k < out@.len() && j <= m < nr ==> #[trigger] in_order(
                    *rule,
                    keys@,
                    out@[k],
                    right@[m],
                ),
        decreases nl + nr - i - j,
    {
        let take_left = if i == nl {
            false
        } else if j == nr {
            true
        } else {
            rule.precedes_exec(&keys[left[i]], &keys[right[j]])
        };
        let ghost prev = out@;
        if take_left {
            let x = left[i];
            proof {
                assert forall|m: int| i < m < nl implies #[trigger] in_order(*rule, keys@, x, left@[m]) by {
                    assert(in_order(*rule, keys@, left@[i as int], left@[m]));
                }
                assert forall|m: int| j <= m < nr implies #[trigger] in_order(*rule, keys@, x, right@[m]) by {
                    assert(lo <= x < mid);
                    assert(mid <= right@[m] < hi);
                    if m > j {
                        assert(in_order(*rule, keys@, right@[j as int], right@[m]));
                        rule.precedes_transitive(
                            keys@[x as int],
                            keys@[right@[j as int] as int],
                            keys@[right@[m] as int],
                        );
                    }
                }
            }
            out.push(x);
            i = i + 1;
            proof {
                assert forall|a: int, b: int| 0 <= a < b < out@.len() implies #[trigger] in_order(
                    *rule,
                    keys@,
                    out@[a],
                    out@[b],
                ) by {
                    if b < prev.len() {
                        assert(in_order(*rule, keys@, prev[a], prev[b]));
                    } else {
                        assert(in_order(*rule, keys@, prev[a], left@[i - 1]));
                    }
                }
                assert forall|k: int, m: int| 0 <= k < out@.len() && i <= m < nl implies #[trigger] in_order(
                    *rule,
                    keys@,
                    out@[k],
                    left@[m],
                ) by {
                    if k < prev.len() {
                        assert(in_order(*rule, keys@, prev[k], left@[m]));
                    }
                }
                assert forall|k: int, m: int| 0 <= k < out@.len() && j <= m < nr implies #[trigger] in_order(
                    *rule,
                    keys@,
                    out@[k],
                    right@[m],
                ) by {
                    if k < prev.len() {
                        assert(in_order(*rule, keys@, prev[k], right@[m]));
                    }
                }
            }
        } else {
            let y = right[j];
            proof {
                if i < nl {
                    rule.precedes_total(keys@[left@[i as int] as int], keys@[y as int]);
                }
                assert forall|m: int| j < m < nr implies #[trigger] in_order(*rule, keys@, y, right@[m]) by {
                    assert(in_order(*rule, keys@, right@[j as int], right@[m]));
                }
                assert forall|m: int| i <= m < nl implies #[trigger] in_order(*rule, keys@, y, left@[m]) by {
                    assert(lo <= left@[m] < mid);
                    assert(mid <= y < hi);
                    let h = keys@[left@[i as int] as int];
                    if m > i {
                        assert(in_order(*rule, keys@, left@[i as int], left@[m]));
                        rule.precedes_transitive(keys@[y as int], h, keys@[left@[m] as int]);
                    }
                    if rule.precedes(keys@[left@[m] as int], keys@[y as int]) {
                        if m > i {
                            rule.precedes_transitive(h, keys@[left@[m] as int], keys@[y as int]);
                        }
                        assert(false);
                    }
                }
            }
            out.push(y);
            j = j + 1;
            proof {
                assert forall|a: int, b: int| 0 <= a < b < out@.len() implies #[trigger] in_order(
                    *rule,
                    keys@,
                    out@[a],
                    out@[b],
                ) by {
                    if b < prev.len() {
                        assert(in_order(*rule, keys@, prev[a], prev[b]));
                    } else {
                        assert(in_order(*rule, keys@, prev[a], right@[j - 1]));
                    }
                }
                assert forall|k: int, m: int| 0 <= k < out@.len() && i <= m < nl implies #[trigger] in_order(
                    *rule,
                    keys@,
                    out@[k],
                    left@[m],
                ) by {
                    if k < prev.len() {
                        assert(in_order(*rule, keys@, prev[k], left@[m]));
                    }
                }
                assert forall|k: int, m: int| 0 <= k < out@.len() && j <= m < nr implies #[trigger] in_order(
                    *rule,
                    keys@,
                    out@[k],
                    right@[m],
                ) by {
                    if k < prev.len() {
                        assert(in_order(*rule, keys@, prev[k], right@[m]));
                    }
                }
            }
        }
    }
    proof {
        assert forall|a: int, b: int| 0 <= a < b < out@.len() implies out@[a] != out@[b] by {
            assert(in_order(*rule, keys@, out@[a], out@[b]));
            if out@[a] == out@[b] {
                lemma_reflexive(*rule, keys@[out@[a] as int]);
            }
        }
    }
    out
}

/// Sorts the positions `lo..hi` by key, stably.
fn sort_range<K, R: Precedence<K>>(rule: &R, keys: &Vec<K>, lo: usize, hi: usize) -> (out: Vec<usize>)
    requires
        lo <= hi <= keys@.len(),
    ensures
        covers(out@, lo as int, hi as int),
        stably_sorted(*rule, keys@, out@),
    decreases hi - lo,
{
    if hi - lo <= 1 {
        let mut out: Vec<usize> = Vec::new();
        if hi > lo {
            out.push(lo);
        }
        return out;
    }
    let mid = lo + (hi - lo) / 2;
    let left = sort_range(rule, keys, lo, mid);
    let right = sort_range(rule, keys, mid, hi);
    merge(rule, keys, left, right, Ghost(lo as int), Ghost(mid as int), Ghost(hi as int))
}

/// The positions of `keys` in stably sorted order (what `sort_by` on the
/// keyed items yields, as a permutation).
pub fn stable_order<K, R: Precedence<K>>(rule: &R, keys: &Vec<K>) -> (order: Vec<usize>)
    ensures
        is_permutation(order@, keys@.len()),
        stably_sorted(*rule, keys@, order@),
{
    sort_range(rule, keys, 0, keys.len())
}

/// Moves the items into the order given by a permutation of their positions.
pub fn arrange<T>(items: Vec<T>, order: &Vec<usize>) -> (out: Vec<T>)
    requires
        is_permutation(order@, items@.len()),
    ensures
        out@ == arranged(items@, order@),
{
    let n = items.len();
    let ghost input = items@;
    let mut slots: Vec<Option<T>> = Vec::new();
    for x in it: items
        invariant
            input == it.seq(),
            slots@.len() == it.index(),
            forall|k: int| 0 <= k < slots@.len() ==> slots@[k] == Some(#[trigger] input[k]),
    {
        slots.push(Some(x));
    }
    let mut out: Vec<T> = Vec::new();
    for k in 0..n
        invariant
            n == input.len(),
            is_permutation(order@, n as nat),
            slots@.len() == n,
            out@ == arranged(input, order@.take(k as int)),
            forall|m: int|
                0 <= m < n ==> #[trigger] slots@[m] == if order@.take(k as int).contains(
                    m as usize,
                ) {
                    None
                } else {
                    Some(input[m])
                },
    {
        let idx = order[k];
        proof {
            assert(!order@.take(k as int).contains(idx)) by {
                if order@.take(k as int).contains(idx) {
                    let w = choose|w: int| 0 <= w < k && #[trigger] order@.take(k as int)[w] == idx;
                    assert(order@[w] == order@[k as int]);
                }
            }
        }
        slots.push(None);
        let taken = slots.swap_remove(idx);
        match taken {
            Some(x) => {
                out.push(x);
            },
            None => {
                assert(false);
            },
        }
        proof {
            assert(order@.take(k + 1) == order@.take(k as int).push(idx));
            assert(arranged(input, order@.take(k + 1)) == arranged(input, order@.take(k as int)).push(input[idx as int]));
            assert forall|m: int| 0 <= m < n implies #[trigger] slots@[m] == if order@.take(k + 1).contains(
                m as usize,
            ) {
                None
            } else {
                Some(input[m])
            } by {
                if m == idx {
                    assert(order@.take(k + 1)[k as int] == idx);
                    assert(order@.take(k + 1).contains(idx));
                } else {
                    if order@.take(k + 1).contains(m as usize) {
                        let w = choose|w: int| 0 <= w < k + 1 && #[trigger] order@.take(k + 1)[w] == m as usize;
                        assert(w < k);
                        assert(order@.take(k as int).contains(m as usize));
                    }
                }
            }
        }
    }
    assert(order@.take(n as int) == order@);
    out
}

proof fn lemma_same_sorted<K, R: Precedence<K>>(rule: R, keys: Seq<K>, o1: Seq<usize>, o2: Seq<usize>)
    requires
        o1.len() == o2.len(),
        forall|i: int, j: int| 0 <= i < j < o1.len() ==> o1[i] != o1[j],
        forall|i: int, j: int| 0 <= i < j < o2.len() ==> o2[i] != o2[j],
        forall|v: usize| o1.contains(v) <==> o2.contains(v),
        stably_sorted(rule, keys, o1),
        stably_sorted(rule, keys, o2),
    ensures
        o1 == o2,
    decreases o1.len(),
{
    if o1.len() > 0 {
        let x1 = o1[0];
        let x2 = o2[0];
        if x1 != x2 {
            assert(o2.contains(x2));
            let k1 = choose|k: int| 0 <= k < o1.len() && o1[k] == x2;
            assert(o1.contains(x1));
            let k2 = choose|k: int| 0 <= k < o2.len() && o2[k] == x1;
            assert(in_order(rule, keys, o1[0], o1[k1]));
            assert(in_order(rule, keys, o2[0], o2[k2]));
        }
        let t1 = o1.drop_first();
        let t2 = o2.drop_first();
        assert forall|v: usize| t1.contains(v) <==> t2.contains(v) by {
            if t1.contains(v) {
                let k = choose|k: int| 0 <= k < t1.len() && t1[k] == v;
                assert(o1[k + 1] == v);
                assert(o2.contains(v));
                let q = choose|q: int| 0 <= q < o2.len() && o2[q] == v;
                assert(q != 0);
                assert(t2[q - 1] == v);
            }
            if t2.contains(v) {
                let k = choose|k: int| 0 <= k < t2.len() && t2[k] == v;
                assert(o2[k + 1] == v);
                assert(o1.contains(v));
                let q = choose|q: int| 0 <= q < o1.len() && o1[q] == v;
                assert(q != 0);
                assert(t1[q - 1] == v);
            }
        }
        assert forall|i: int, j: int| 0 <= i < j < t1.len() implies #[trigger] in_order(rule, keys, t1[i], t1[j]) by {
            assert(in_order(rule, keys, o1[i + 1], o1[j + 1]));
        }
        assert forall|i: int, j: int| 0 <= i < j < t2.len() implies #[trigger] in_order(rule, keys, t2[i], t2[j]) by {
            assert(in_order(rule, keys, o2[i + 1], o2[j + 1]));
        }
        assert forall|i: int, j: int| 0 <= i < j < t1.len() implies t1[i] != t1[j] by {
            assert(o1[i + 1] != o1[j + 1]);
        }
        assert forall|i: int, j: int| 0 <= i < j < t2.len() implies t2[i] != t2[j] by {
            assert(o2[i + 1] != o2[j + 1]);
        }
        lemma_same_sorted(rule, keys, t1, t2);
        assert(o1 == seq![x1] + t1);
        assert(o2 == seq![x2] + t2);
    }
}

/// A stable sort has one result: two permutations of the same positions
/// that both order the keys stably are the same permutation.
pub proof fn stable_order_unique<K, R: Precedence<K>>(rule: R, keys: Seq<K>, o1: Seq<usize>, o2: Seq<usize>)
    requires
        is_permutation(o1, keys.len()),
        is_permutation(o2, keys.len()),
        stably_sorted(rule, keys, o1),
        stably_sorted(rule, keys, o2),
    ensures
        o1 == o2,
{
    let n = keys.len();
    assert forall|v: usize| o1.contains(v) <==> o2.contains(v) by {
        lemma_permutation_contains(o1, n, v);
        lemma_permutation_contains(o2, n, v);
    }
    lemma_same_sorted(rule, keys, o1, o2);
}

/// A permutation of `0..n` holds exactly the positions below `n`.
pub proof fn lemma_permutation_contains(order: Seq<usize>, n: nat, v: usize)
    requires
        is_permutation(order, n),
    ensures
        order.contains(v) <==> v < n,
{
    if v < n && !order.contains(v) {
        lemma_missing_shrinks(order, n, v);
    }
    if order.contains(v) {
        let k = choose|k: int| 0 <= k < order.len() && order[k] == v;
    }
}

proof fn lemma_missing_shrinks(order: Seq<usize>, n: nat, v: usize)
    requires
        is_permutation(order, n),
        v < n,
    ensures
        order.contains(v),
{
    let oi = order.map_values(|x: usize| x as int);
    assert(oi.no_duplicates()) by {
        assert forall|i: int, j: int| 0 <= i < oi.len() && 0 <= j < oi.len() && i != j implies oi[i]
            != oi[j] by {
            if i < j {
                assert(order[i] != order[j]);
            } else {
                assert(order[j] != order[i]);
            }
        }
    }
    oi.unique_seq_to_set();
    vstd::set_lib::lemma_int_range(0, n as int);
    let range = vstd::set_lib::set_int_range(0, n as int).remove(v as int);
    assert forall|x: int| !order.contains(v) && oi.to_set().contains(x) implies range.contains(x) by {
        let k = choose|k: int| 0 <= k < oi.len() && oi[k] == x;
        assert(order[k] < n);
        if x == v as int {
            assert(order[k] == v);
        }
    }
    if !order.contains(v) {
        vstd::set_lib::lemma_len_subset(oi.to_set(), range);
    }
}

} // verus!
