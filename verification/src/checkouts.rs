//! The inspector's checkout picker: the checkouts of the selected
//! project's repository, ordered by path as `Path` orders them, each path
//! once, with the one to show first.

use vstd::prelude::*;

use crate::git_actions::{checkout_at, find_checkout, texts};
use crate::order::{arrange, arranged, is_permutation, stable_order, Precedence};
use crate::paths::{components_of, path_components, path_eq, same_path};
use crate::projects::{health_of, health_text, Project};
use crate::text::{
    chars_of,
    compare_text,
    lower_all,
    owned,
    push_text,
    same_text,
    text_order,
    text_order_total,
    to_ascii_lower,
};

verus! {

/// The rank of a path component in `Path`'s order: the root, then `.`,
/// then `..`, then named components.
pub open spec fn component_rank(c: Seq<char>) -> char {
    if c == "/"@ {
        '\u{1}'
    } else if c == "."@ {
        '\u{2}'
    } else if c == ".."@ {
        '\u{3}'
    } else {
        '\u{4}'
    }
}

/// A component as a text whose order is the components' order: its rank,
/// then its name (named components compare by their bytes, which for
/// UTF-8 text is the order of code points).
pub open spec fn component_key(c: Seq<char>) -> Seq<char> {
    seq![component_rank(c)] + c
}

/// The key `Path`'s order compares: the keys of its components.
pub open spec fn path_key(path: Seq<char>) -> Seq<Seq<char>> {
    path_components(path).map_values(|c: Seq<char>| component_key(c))
}

/// Lexicographic order of two component lists from position `i` on:
/// `-1`, `0` or `1`; a list that is a prefix of the other comes first.
pub open spec fn list_order_from(a: Seq<Seq<char>>, b: Seq<Seq<char>>, i: int) -> int
    decreases a.len() - i,
{
    if i < 0 || i >= a.len() {
        if i >= 0 && i < b.len() {
            -1
        } else {
            0
        }
    } else if i >= b.len() {
        1
    } else if text_order(a[i], b[i]) != 0 {
        text_order(a[i], b[i])
    } else {
        list_order_from(a, b, i + 1)
    }
}

/// Lexicographic order of two component lists.
pub open spec fn list_order(a: Seq<Seq<char>>, b: Seq<Seq<char>>) -> int {
    list_order_from(a, b, 0)
}

proof fn lemma_list_antisym(a: Seq<Seq<char>>, b: Seq<Seq<char>>, i: int)
    requires
        0 <= i,
    ensures
        list_order_from(a, b, i) == -list_order_from(b, a, i),
    decreases a.len() - i,
{
    if i < a.len() && i < b.len() {
        text_order_total(a[i], b[i], a[i]);
        if text_order(a[i], b[i]) == 0 {
            lemma_list_antisym(a, b, i + 1);
        }
    }
}

proof fn lemma_list_trans(a: Seq<Seq<char>>, b: Seq<Seq<char>>, c: Seq<Seq<char>>, i: int)
    requires
        0 <= i,
        list_order_from(a, b, i) <= 0,
        list_order_from(b, c, i) <= 0,
    ensures
        list_order_from(a, c, i) <= 0,
    decreases a.len() - i,
{
    if i < a.len() && i < b.len() && i < c.len() {
        text_order_total(a[i], b[i], c[i]);
        text_order_total(b[i], c[i], a[i]);
        text_order_total(a[i], c[i], b[i]);
        text_order_total(c[i], a[i], b[i]);
        if text_order(a[i], b[i]) == 0 && text_order(b[i], c[i]) == 0 {
            lemma_list_trans(a, b, c, i + 1);
        }
    }
}

/// Checkouts ordered by path.
pub struct ByPath;

/// The views of a path key held as character vectors.
pub open spec fn key_view(k: Vec<Vec<char>>) -> Seq<Seq<char>> {
    k@.map_values(|c: Vec<char>| c@)
}

impl Precedence<Vec<Vec<char>>> for ByPath {
    open spec fn precedes(self, a: Vec<Vec<char>>, b: Vec<Vec<char>>) -> bool {
        list_order(key_view(a), key_view(b)) <= 0
    }

    proof fn precedes_total(self, a: Vec<Vec<char>>, b: Vec<Vec<char>>) {
        lemma_list_antisym(key_view(a), key_view(b), 0);
    }

    proof fn precedes_transitive(self, a: Vec<Vec<char>>, b: Vec<Vec<char>>, c: Vec<Vec<char>>) {
        lemma_list_trans(key_view(a), key_view(b), key_view(c), 0);
    }

    fn precedes_exec(&self, a: &Vec<Vec<char>>, b: &Vec<Vec<char>>) -> (r: bool) {
        let mut i: usize = 0;
        while i < a.len() && i < b.len()
            invariant
                i <= a@.len(),
                i <= b@.len(),
                list_order(key_view(*a), key_view(*b)) == list_order_from(
                    key_view(*a),
                    key_view(*b),
                    i as int,
                ),
            decreases a@.len() - i,
        {
            let t = compare_text(&a[i], &b[i]);
            assert(key_view(*a)[i as int] == a@[i as int]@);
            assert(key_view(*b)[i as int] == b@[i as int]@);
            if t != 0 {
                return t < 0;
            }
            i = i + 1;
        }
        i < b.len() || i >= a.len()
    }
}

fn rank_char(c: &Vec<char>) -> (r: char)
    ensures
        r == component_rank(c@),
{
    let root = chars_of("/");
    let here = chars_of(".");
    let up = chars_of("..");
    if same_text(c, &root) {
        '\u{1}'
    } else if same_text(c, &here) {
        '\u{2}'
    } else if same_text(c, &up) {
        '\u{3}'
    } else {
        '\u{4}'
    }
}

/// The sort key of a path (see `path_key`).
pub fn path_sort_key(path: &str) -> (r: Vec<Vec<char>>)
    ensures
        key_view(r) == path_key(path@),
{
    let parts = components_of(path);
    let ghost pv = parts@.map_values(|c: String| c@);
    let mut out: Vec<Vec<char>> = Vec::new();
    let mut k: usize = 0;
    while k < parts.len()
        invariant
            k <= parts@.len(),
            pv == parts@.map_values(|c: String| c@),
            pv == path_components(path@),
            key_view(out) == pv.take(k as int).map_values(|c: Seq<char>| component_key(c)),
        decreases parts@.len() - k,
    {
        let c = chars_of(parts[k].as_str());
        let mut key: Vec<char> = Vec::new();
        key.push(rank_char(&c));
        let mut j: usize = 0;
        while j < c.len()
            invariant
                j <= c@.len(),
                key@ == seq![component_rank(c@)] + c@.take(j as int),
            decreases c@.len() - j,
        {
            key.push(c[j]);
            assert(c@.take(j + 1) == c@.take(j as int).push(c@[j as int]));
            j = j + 1;
        }
        assert(c@.take(c@.len() as int) == c@);
        let ghost before = key_view(out);
        out.push(key);
        proof {
            assert(key_view(out) == before.push(component_key(pv[k as int])));
            assert(pv.take(k + 1).map_values(|c: Seq<char>| component_key(c)) == pv.take(
                k as int,
            ).map_values(|c: Seq<char>| component_key(c)).push(component_key(pv[k as int])));
        }
        k = k + 1;
    }
    assert(pv.take(pv.len() as int) == pv);
    out
}

/// The checkouts of the selected project's repository among the first `k`
/// projects: those with a repository equal to it, ignoring ASCII case.
pub open spec fn same_repository(all: Seq<Project>, repo: Seq<char>, k: int) -> Seq<usize>
    decreases k,
{
    if k <= 0 {
        seq![]
    } else {
        same_repository(all, repo, k - 1) + if all[k - 1].repository@.len() > 0 && lower_all(
            all[k - 1].repository@,
        ) == lower_all(repo) {
            seq![(k - 1) as usize]
        } else {
            seq![]
        }
    }
}

/// The group the picker starts from: the selected project alone when it
/// has no repository, else every checkout of its repository.
pub open spec fn group_of(all: Seq<Project>, sel: int) -> Seq<usize> {
    if all[sel].repository@.len() == 0 {
        seq![sel as usize]
    } else {
        same_repository(all, all[sel].repository@, all.len() as int)
    }
}

/// Whether a checkout at `path` is among the projects at `group`.
pub open spec fn in_group(all: Seq<Project>, group: Seq<usize>, path: Seq<char>) -> bool {
    exists|m: int| 0 <= m < group.len() && same_path(all[group[m] as int].path@, path)
}

/// The checkouts the selected project's own worktree list adds, from its
/// first `k` worktrees: each one that is not in the group and that a
/// known project has checked out (the first such project).
pub open spec fn extras_of(all: Seq<Project>, group: Seq<usize>, trees: Seq<Seq<char>>, k: int) -> Seq<usize>
    decreases k,
{
    if k <= 0 {
        seq![]
    } else {
        let t = trees[k - 1];
        extras_of(all, group, trees, k - 1) + if !in_group(all, group, t) {
            match checkout_at(all, t, 0) {
                Some(p) => seq![p as usize],
                None => seq![],
            }
        } else {
            seq![]
        }
    }
}

/// The checkouts offered before ordering: the group, then the extras.
pub open spec fn candidates_of(all: Seq<Project>, sel: int) -> Seq<usize> {
    let group = group_of(all, sel);
    let trees = all[sel].worktrees@.map_values(|w: String| w@);
    group + extras_of(all, group, trees, trees.len() as int)
}

/// `items` with each run of equal paths reduced to its first (what
/// `Vec::dedup_by` with path equality keeps).
pub open spec fn distinct_runs(all: Seq<Project>, items: Seq<usize>) -> Seq<usize>
    decreases items.len(),
{
    if items.len() == 0 {
        seq![]
    } else {
        let kept = distinct_runs(all, items.drop_last());
        if kept.len() > 0 && same_path(all[items.last() as int].path@, all[kept.last() as int].path@) {
            kept
        } else {
            kept.push(items.last())
        }
    }
}

/// The line the picker shows for a checkout: branch, summary and path.
pub open spec fn choice_label_of(p: Project) -> Seq<char> {
    p.branch@ + " · "@ + health_of(p) + " · "@ + p.path@
}

/// The first position among `items[i..]` whose checkout is at `path`.
pub open spec fn position_at(all: Seq<Project>, items: Seq<usize>, path: Seq<char>, i: int) -> Option<int>
    decreases items.len() - i,
{
    if i < 0 || i >= items.len() {
        None
    } else if same_path(all[items[i] as int].path@, path) {
        Some(i)
    } else {
        position_at(all, items, path, i + 1)
    }
}

/// The picker's contents.
pub struct Choices {
    /// Positions into the known projects, in the picker's order.
    pub items: Vec<usize>,
    /// One label per item.
    pub labels: Vec<String>,
    /// The item shown first.
    pub position: usize,
}

/// The picker for the project at `sel`, given the stable order of its
/// candidates by path: the candidates in that order, each run of equal
/// paths once; a label for each; first the checkout last chosen for the
/// repository (`remembered`), else the selected one, else the first.
pub open spec fn choices_of(
    all: Seq<Project>,
    sel: int,
    remembered: Option<Seq<char>>,
    order: Seq<usize>,
    c: Choices,
) -> bool {
    let items = distinct_runs(all, arranged(candidates_of(all, sel), order));
    let wanted = match remembered {
        Some(p) => p,
        None => all[sel].path@,
    };
    &&& c.items@ == items
    &&& c.labels@.len() == items.len()
    &&& forall|k: int|
        0 <= k < items.len() ==> #[trigger] c.labels@[k]@ == choice_label_of(all[items[k] as int])
    &&& c.position as int == match position_at(all, items, wanted, 0) {
        Some(i) => i,
        None => 0,
    }
}

fn repository_group(all: &Vec<Project>, sel: usize) -> (r: Vec<usize>)
    requires
        sel < all@.len(),
    ensures
        r@ == group_of(all@, sel as int),
        forall|m: int| 0 <= m < r@.len() ==> #[trigger] r@[m] < all@.len(),
{
    if all[sel].repository.as_str().is_empty() {
        let mut v: Vec<usize> = Vec::new();
        v.push(sel);
        return v;
    }
    let rc = chars_of(all[sel].repository.as_str());
    let repo_lower = to_ascii_lower(&rc);
    let mut out: Vec<usize> = Vec::new();
    let n = all.len();
    let mut k: usize = 0;
    while k < n
        invariant
            n == all@.len(),
            k <= n,
            repo_lower@ == lower_all(all@[sel as int].repository@),
            out@ == same_repository(all@, all@[sel as int].repository@, k as int),
            forall|m: int| 0 <= m < out@.len() ==> #[trigger] out@[m] < k,
        decreases n - k,
    {
        let c = chars_of(all[k].repository.as_str());
        let lc = to_ascii_lower(&c);
        if c.len() > 0 && same_text(&lc, &repo_lower) {
            out.push(k);
            assert(out@ == same_repository(all@, all@[sel as int].repository@, k as int) + seq![k]);
        } else {
            assert(out@ == same_repository(all@, all@[sel as int].repository@, k as int)
                + Seq::<usize>::empty());
        }
        k = k + 1;
    }
    out
}

fn group_holds(all: &Vec<Project>, group: &Vec<usize>, path: &str) -> (r: bool)
    requires
        forall|m: int| 0 <= m < group@.len() ==> #[trigger] group@[m] < all@.len(),
    ensures
        r == in_group(all@, group@, path@),
{
    let mut m: usize = 0;
    while m < group.len()
        invariant
            m <= group@.len(),
            forall|i: int| 0 <= i < group@.len() ==> #[trigger] group@[i] < all@.len(),
            forall|i: int| 0 <= i < m ==> !same_path(#[trigger] all@[group@[i] as int].path@, path@),
        decreases group@.len() - m,
    {
        if path_eq(all[group[m]].path.as_str(), path) {
            return true;
        }
        m = m + 1;
    }
    false
}

fn candidates(all: &Vec<Project>, sel: usize) -> (r: Vec<usize>)
    requires
        sel < all@.len(),
    ensures
        r@ == candidates_of(all@, sel as int),
        forall|m: int| 0 <= m < r@.len() ==> #[trigger] r@[m] < all@.len(),
{
    let group = repository_group(all, sel);
    let trees = &all[sel].worktrees;
    let ghost tv = trees@.map_values(|w: String| w@);
    let mut extras: Vec<usize> = Vec::new();
    let mut k: usize = 0;
    while k < trees.len()
        invariant
            k <= trees@.len(),
            tv == trees@.map_values(|w: String| w@),
            forall|m: int| 0 <= m < group@.len() ==> #[trigger] group@[m] < all@.len(),
            forall|m: int| 0 <= m < extras@.len() ==> #[trigger] extras@[m] < all@.len(),
            extras@ == extras_of(all@, group@, tv, k as int),
        decreases trees@.len() - k,
    {
        assert(tv[k as int] == trees@[k as int]@);
        if !group_holds(all, &group, trees[k].as_str()) {
            match find_checkout(all, trees[k].as_str()) {
                Some(p) => {
                    extras.push(p);
                    assert(extras@ == extras_of(all@, group@, tv, k as int) + seq![p]);
                },
                None => {
                    assert(extras@ == extras_of(all@, group@, tv, k as int) + Seq::<usize>::empty());
                },
            }
        } else {
            assert(extras@ == extras_of(all@, group@, tv, k as int) + Seq::<usize>::empty());
        }
        k = k + 1;
    }
    let mut out = group;
    let ghost g = out@;
    let mut j: usize = 0;
    while j < extras.len()
        invariant
            j <= extras@.len(),
            out@ == g + extras@.take(j as int),
            forall|m: int| 0 <= m < g.len() ==> #[trigger] g[m] < all@.len(),
            forall|m: int| 0 <= m < extras@.len() ==> #[trigger] extras@[m] < all@.len(),
        decreases extras@.len() - j,
    {
        out.push(extras[j]);
        assert(extras@.take(j + 1) == extras@.take(j as int).push(extras@[j as int]));
        j = j + 1;
    }
    assert(extras@.take(extras@.len() as int) == extras@);
    proof {
        assert forall|m: int| 0 <= m < out@.len() implies #[trigger] out@[m] < all@.len() by {
            if m >= g.len() {
                assert(out@[m] == extras@[m - g.len()]);
            }
        }
    }
    out
}

fn choice_label(p: &Project) -> (r: String)
    ensures
        r@ == choice_label_of(*p),
{
    let mut s = owned(p.branch.as_str());
    push_text(&mut s, " · ");
    let h = health_text(p);
    push_text(&mut s, h.as_str());
    push_text(&mut s, " · ");
    push_text(&mut s, p.path.as_str());
    s
}

/// Positions `x` and `y` of `items` stand in path order, ties in their
/// input order.
pub open spec fn path_in_order(all: Seq<Project>, items: Seq<usize>, x: usize, y: usize) -> bool {
    let kx = path_key(all[items[x as int] as int].path@);
    let ky = path_key(all[items[y as int] as int].path@);
    &&& list_order(kx, ky) <= 0
    &&& list_order(ky, kx) <= 0 ==> x < y
}

/// `order` sorts `items` stably by path.
pub open spec fn path_sorted(all: Seq<Project>, items: Seq<usize>, order: Seq<usize>) -> bool {
    forall|i: int, j: int|
        0 <= i < j < order.len() ==> #[trigger] path_in_order(all, items, order[i], order[j])
}

fn first_position(all: &Vec<Project>, items: &Vec<usize>, wanted: &str) -> (r: usize)
    requires
        forall|t: int| 0 <= t < items@.len() ==> #[trigger] items@[t] < all@.len(),
    ensures
        r as int == match position_at(all@, items@, wanted@, 0) {
            Some(i) => i,
            None => 0,
        },
{
    let mut i: usize = 0;
    while i < items.len()
        invariant
            i <= items@.len(),
            forall|t: int| 0 <= t < items@.len() ==> #[trigger] items@[t] < all@.len(),
            position_at(all@, items@, wanted@, 0) == position_at(all@, items@, wanted@, i as int),
        decreases items@.len() - i,
    {
        if path_eq(all[items[i]].path.as_str(), wanted) {
            return i;
        }
        i = i + 1;
    }
    0
}

/// The checkout picker for the project at `sel` (see `choices_of`).
pub fn checkout_choices(all: &Vec<Project>, sel: usize, remembered: Option<&str>) -> (r: Choices)
    requires
        sel < all@.len(),
    ensures
        exists|order: Seq<usize>|
            #![trigger arranged(candidates_of(all@, sel as int), order)]
            {
                &&& is_permutation(order, candidates_of(all@, sel as int).len())
                &&& path_sorted(all@, candidates_of(all@, sel as int), order)
                &&& choices_of(
                    all@,
                    sel as int,
                    match remembered {
                        Some(p) => Some(p@),
                        None => None,
                    },
                    order,
                    r,
                )
            },
{
    let cands = candidates(all, sel);
    let mut keys: Vec<Vec<Vec<char>>> = Vec::new();
    let mut k: usize = 0;
    while k < cands.len()
        invariant
            k <= cands@.len(),
            forall|m: int| 0 <= m < cands@.len() ==> #[trigger] cands@[m] < all@.len(),
            keys@.len() == k,
            forall|m: int|
                0 <= m < k ==> key_view(#[trigger] keys@[m]) == path_key(
                    all@[cands@[m] as int].path@,
                ),
        decreases cands@.len() - k,
    {
        keys.push(path_sort_key(all[cands[k]].path.as_str()));
        k = k + 1;
    }
    let order = stable_order(&ByPath, &keys);
    proof {
        assert forall|i: int, j: int| 0 <= i < j < order@.len() implies #[trigger] path_in_order(
            all@,
            cands@,
            order@[i],
            order@[j],
        ) by {
            assert(crate::order::in_order(ByPath, keys@, order@[i], order@[j]));
            crate::order::lemma_permutation_contains(order@, keys@.len(), order@[i]);
            crate::order::lemma_permutation_contains(order@, keys@.len(), order@[j]);
            assert(key_view(keys@[order@[i] as int]) == path_key(all@[cands@[order@[i] as int] as int].path@));
            assert(key_view(keys@[order@[j] as int]) == path_key(all@[cands@[order@[j] as int] as int].path@));
        }
    }
    let ghost cv = cands@;
    let sorted = arrange(cands, &order);
    assert(sorted@ == arranged(cv, order@));
    proof {
        assert forall|m: int| 0 <= m < sorted@.len() implies #[trigger] sorted@[m] < all@.len() by {
            crate::order::lemma_permutation_contains(order@, cv.len(), order@[m]);
        }
    }
    let mut items: Vec<usize> = Vec::new();
    let mut j: usize = 0;
    while j < sorted.len()
        invariant
            j <= sorted@.len(),
            forall|m: int| 0 <= m < sorted@.len() ==> #[trigger] sorted@[m] < all@.len(),
            forall|m: int| 0 <= m < items@.len() ==> #[trigger] items@[m] < all@.len(),
            items@ == distinct_runs(all@, sorted@.take(j as int)),
        decreases sorted@.len() - j,
    {
        proof {
            assert(sorted@.take(j + 1).drop_last() == sorted@.take(j as int));
            assert(sorted@.take(j + 1).last() == sorted@[j as int]);
        }
        let n = items.len();
        if n > 0 && path_eq(all[sorted[j]].path.as_str(), all[items[n - 1]].path.as_str()) {
        } else {
            items.push(sorted[j]);
        }
        j = j + 1;
    }
    assert(sorted@.take(sorted@.len() as int) == sorted@);
    let mut labels: Vec<String> = Vec::new();
    let mut m: usize = 0;
    while m < items.len()
        invariant
            m <= items@.len(),
            forall|i: int| 0 <= i < items@.len() ==> #[trigger] items@[i] < all@.len(),
            labels@.len() == m,
            forall|i: int| 0 <= i < m ==> #[trigger] labels@[i]@ == choice_label_of(all@[items@[i] as int]),
        decreases items@.len() - m,
    {
        labels.push(choice_label(&all[items[m]]));
        m = m + 1;
    }
    let wanted: &str = match remembered {
        Some(p) => p,
        None => all[sel].path.as_str(),
    };
    let position = first_position(all, &items, wanted);
    let r = Choices { items, labels, position };
    assert(choices_of(
        all@,
        sel as int,
        match remembered {
            Some(p) => Some(p@),
            None => None,
        },
        order@,
        r,
    ));
    r
}

/// The picker never shows the same path twice in a row: each item's path
/// differs from the one before it.
pub proof fn runs_are_distinct(all: Seq<Project>, items: Seq<usize>)
    ensures
        forall|k: int|
            0 < k < distinct_runs(all, items).len() ==> !same_path(
                all[#[trigger] distinct_runs(all, items)[k] as int].path@,
                all[distinct_runs(all, items)[k - 1] as int].path@,
            ),
    decreases items.len(),
{
    if items.len() > 0 {
        let q = items.drop_last();
        runs_are_distinct(all, q);
        let kept = distinct_runs(all, q);
        let out = distinct_runs(all, items);
        if !(kept.len() > 0 && same_path(all[items.last() as int].path@, all[kept.last() as int].path@)) {
            assert(out == kept.push(items.last()));
            assert forall|k: int| 0 < k < out.len() implies !same_path(
                all[#[trigger] out[k] as int].path@,
                all[out[k - 1] as int].path@,
            ) by {
                if k < kept.len() {
                    assert(out[k] == kept[k]);
                    assert(out[k - 1] == kept[k - 1]);
                } else {
                    assert(out[k - 1] == kept.last());
                }
            }
        }
    }
}

/// Paths at positions `x` and `y` stand in `Path` order, ties in their
/// input order.
pub open spec fn paths_in_order(paths: Seq<Seq<char>>, x: usize, y: usize) -> bool {
    let kx = path_key(paths[x as int]);
    let ky = path_key(paths[y as int]);
    &&& list_order(kx, ky) <= 0
    &&& list_order(ky, kx) <= 0 ==> x < y
}

/// Paths sorted as `Vec<PathBuf>::sort` sorts them (see `path_key`).
pub fn sort_paths(paths: Vec<String>) -> (r: Vec<String>)
    ensures
        exists|order: Seq<usize>|
            #![trigger is_permutation(order, paths@.len())]
            {
                &&& is_permutation(order, paths@.len())
                &&& forall|i: int, j: int|
                    0 <= i < j < order.len() ==> #[trigger] paths_in_order(
                        texts(paths@),
                        order[i],
                        order[j],
                    )
                &&& r@ == arranged(paths@, order)
            },
{
    let ghost pv = texts(paths@);
    let mut keys: Vec<Vec<Vec<char>>> = Vec::new();
    let mut k: usize = 0;
    while k < paths.len()
        invariant
            k <= paths@.len(),
            pv == texts(paths@),
            keys@.len() == k,
            forall|m: int| 0 <= m < k ==> key_view(#[trigger] keys@[m]) == path_key(pv[m]),
        decreases paths@.len() - k,
    {
        keys.push(path_sort_key(paths[k].as_str()));
        k = k + 1;
    }
    let order = stable_order(&ByPath, &keys);
    proof {
        assert forall|i: int, j: int| 0 <= i < j < order@.len() implies #[trigger] paths_in_order(
            pv,
            order@[i],
            order@[j],
        ) by {
            assert(crate::order::in_order(ByPath, keys@, order@[i], order@[j]));
            crate::order::lemma_permutation_contains(order@, keys@.len(), order@[i]);
            crate::order::lemma_permutation_contains(order@, keys@.len(), order@[j]);
            assert(key_view(keys@[order@[i] as int]) == path_key(pv[order@[i] as int]));
            assert(key_view(keys@[order@[j] as int]) == path_key(pv[order@[j] as int]));
        }
    }
    let ghost input = paths@;
    let out = arrange(paths, &order);
    assert(out@ == arranged(input, order@));
    out
}

} // verus!
