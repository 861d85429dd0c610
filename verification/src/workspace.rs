//! The project workspace's list: which projects a search shows, in which
//! order, once each, and the status line above them.

use vstd::prelude::*;

use crate::order::{arrange, arranged, is_permutation, stable_order, stably_sorted, Precedence};
use crate::paths::{components_of, lowercase, path_components, path_eq, same_path, to_lowercase};
use crate::projects::{toolchain_of, toolchain_text, Project};
use crate::text::{chars_of, contains, contains_text, decimal, occurs_at, push_decimal, push_text};

verus! {

/// The text a project search looks in: the lowercased path, repository,
/// branch, last commit and toolchains, separated by spaces.
pub open spec fn haystack_of(p: Project) -> Seq<char> {
    lowercase(p.path@) + " "@ + lowercase(p.repository@) + " "@ + lowercase(p.branch@) + " "@
        + lowercase(p.last_commit@) + " "@ + lowercase(toolchain_of(p))
}

/// Whether a project is shown for a search: its haystack contains the
/// lowercased search text.
pub open spec fn shown_for(p: Project, query: Seq<char>) -> bool {
    contains_text(haystack_of(p), lowercase(query))
}

/// Whether a project is shown for a search (see `shown_for`).
pub fn project_shown(project: &Project, query: &str) -> (r: bool)
    ensures
        r == shown_for(*project, query@),
{
    let mut hay = to_lowercase(project.path.as_str());
    push_text(&mut hay, " ");
    let repo = to_lowercase(project.repository.as_str());
    push_text(&mut hay, repo.as_str());
    push_text(&mut hay, " ");
    let branch = to_lowercase(project.branch.as_str());
    push_text(&mut hay, branch.as_str());
    push_text(&mut hay, " ");
    let commit = to_lowercase(project.last_commit.as_str());
    push_text(&mut hay, commit.as_str());
    push_text(&mut hay, " ");
    let tools = toolchain_text(project);
    let tools_lower = to_lowercase(tools.as_str());
    push_text(&mut hay, tools_lower.as_str());
    let q = to_lowercase(query);
    let hc = chars_of(hay.as_str());
    let qc = chars_of(q.as_str());
    contains(&hc, &qc)
}

proof fn lemma_found_in_middle(pre: Seq<char>, mid: Seq<char>, post: Seq<char>, needle: Seq<char>)
    requires
        contains_text(mid, needle),
    ensures
        contains_text(pre + mid + post, needle),
{
    let i = choose|i: int| occurs_at(mid, needle, i);
    let whole = pre + mid + post;
    assert(whole.subrange(pre.len() + i, pre.len() + i + needle.len()) =~= mid.subrange(
        i,
        i + needle.len(),
    ));
    assert(occurs_at(whole, needle, pre.len() + i));
}

/// A project search looks in each of the project's fields: when the
/// lowercased path, repository, branch, last commit message or toolchain
/// list holds the lowercased search text, the project is shown.
pub proof fn search_finds_each_field(p: Project, query: Seq<char>)
    ensures
        contains_text(lowercase(p.path@), lowercase(query)) ==> shown_for(p, query),
        contains_text(lowercase(p.repository@), lowercase(query)) ==> shown_for(p, query),
        contains_text(lowercase(p.branch@), lowercase(query)) ==> shown_for(p, query),
        contains_text(lowercase(p.last_commit@), lowercase(query)) ==> shown_for(p, query),
        contains_text(lowercase(toolchain_of(p)), lowercase(query)) ==> shown_for(p, query),
{
    let q = lowercase(query);
    let a = lowercase(p.path@);
    let b = lowercase(p.repository@);
    let c = lowercase(p.branch@);
    let d = lowercase(p.last_commit@);
    let t = lowercase(toolchain_of(p));
    let sp = " "@;
    let hay = haystack_of(p);
    if contains_text(a, q) {
        lemma_found_in_middle(Seq::empty(), a, sp + b + sp + c + sp + d + sp + t, q);
        assert(Seq::<char>::empty() + a + (sp + b + sp + c + sp + d + sp + t) =~= hay);
    }
    if contains_text(b, q) {
        lemma_found_in_middle(a + sp, b, sp + c + sp + d + sp + t, q);
        assert(a + sp + b + (sp + c + sp + d + sp + t) =~= hay);
    }
    if contains_text(c, q) {
        lemma_found_in_middle(a + sp + b + sp, c, sp + d + sp + t, q);
        assert(a + sp + b + sp + c + (sp + d + sp + t) =~= hay);
    }
    if contains_text(d, q) {
        lemma_found_in_middle(a + sp + b + sp + c + sp, d, sp + t, q);
        assert(a + sp + b + sp + c + sp + d + (sp + t) =~= hay);
    }
    if contains_text(t, q) {
        lemma_found_in_middle(a + sp + b + sp + c + sp + d + sp, t, Seq::empty(), q);
        assert(a + sp + b + sp + c + sp + d + sp + t + Seq::<char>::empty() =~= hay);
    }
}

proof fn lemma_found_on_one_side(x: Seq<char>, y: Seq<char>, needle: Seq<char>)
    requires
        contains_text(x + " "@ + y, needle),
        forall|k: int| 0 <= k < needle.len() ==> #[trigger] needle[k] != ' ',
    ensures
        contains_text(x, needle) || contains_text(y, needle),
{
    reveal_strlit(" ");
    let h = x + " "@ + y;
    let i = choose|i: int| occurs_at(h, needle, i);
    let n = needle.len();
    let p = x.len() as int;
    if n == 0 {
        assert(x.subrange(0, 0) =~= needle);
        assert(occurs_at(x, needle, 0));
    } else if i + n <= p {
        assert(h.subrange(i, i + n) =~= x.subrange(i, i + n));
        assert(occurs_at(x, needle, i));
    } else if i > p {
        assert(h.subrange(i, i + n) =~= y.subrange(i - p - 1, i - p - 1 + n));
        assert(occurs_at(y, needle, i - p - 1));
    } else {
        assert(h.subrange(i, i + n)[p - i] == h[p]);
        assert(h[p] == ' ');
        assert(needle[p - i] != ' ');
    }
}

/// A search text without spaces is found only inside one field: when a
/// project is shown for it, its lowercased path, repository, branch, last
/// commit message or toolchain list holds the lowercased search text.
pub proof fn shown_only_for_a_matching_field(p: Project, query: Seq<char>)
    requires
        forall|k: int| 0 <= k < lowercase(query).len() ==> #[trigger] lowercase(query)[k] != ' ',
        shown_for(p, query),
    ensures
        contains_text(lowercase(p.path@), lowercase(query)) || contains_text(lowercase(p.repository@), lowercase(query))
            || contains_text(lowercase(p.branch@), lowercase(query)) || contains_text(
            lowercase(p.last_commit@),
            lowercase(query),
        ) || contains_text(lowercase(toolchain_of(p)), lowercase(query)),
{
    let q = lowercase(query);
    let a = lowercase(p.path@);
    let b = lowercase(p.repository@);
    let c = lowercase(p.branch@);
    let d = lowercase(p.last_commit@);
    let t = lowercase(toolchain_of(p));
    let sp = " "@;
    lemma_found_on_one_side(a + sp + b + sp + c + sp + d, t, q);
    if contains_text(a + sp + b + sp + c + sp + d, q) {
        lemma_found_on_one_side(a + sp + b + sp + c, d, q);
        if contains_text(a + sp + b + sp + c, q) {
            lemma_found_on_one_side(a + sp + b, c, q);
            if contains_text(a + sp + b, q) {
                lemma_found_on_one_side(a, b, q);
            }
        }
    }
}

/// The positions among the first `k` projects that a search shows, in
/// order.
pub open spec fn shown_positions(all: Seq<Project>, query: Seq<char>, k: int) -> Seq<usize>
    decreases k,
{
    if k <= 0 {
        seq![]
    } else {
        shown_positions(all, query, k - 1) + if shown_for(all[k - 1], query) {
            seq![(k - 1) as usize]
        } else {
            seq![]
        }
    }
}

/// A component that marks a CI runner's work tree.
pub open spec fn runner_component(c: Seq<char>) -> bool {
    c == "actions-runners"@ || c == "_work"@
}

/// How the list ranks a project: CI runner checkouts last, then checkouts
/// off `main` and `master`, then deeper paths.
pub open spec fn rank_of(p: Project) -> (bool, bool, usize) {
    let parts = path_components(p.path@);
    (
        exists|k: int| 0 <= k < parts.len() && runner_component(#[trigger] parts[k]),
        !(p.branch@ == "main"@ || p.branch@ == "master"@),
        parts.len() as usize,
    )
}

/// Ranks ordered field by field, `false` before `true`.
pub struct ByRank;

/// `a` ranks no later than `b`.
pub open spec fn rank_le(a: (bool, bool, usize), b: (bool, bool, usize)) -> bool {
    if a.0 != b.0 {
        !a.0
    } else if a.1 != b.1 {
        !a.1
    } else {
        a.2 <= b.2
    }
}

impl Precedence<(bool, bool, usize)> for ByRank {
    open spec fn precedes(self, a: (bool, bool, usize), b: (bool, bool, usize)) -> bool {
        rank_le(a, b)
    }

    proof fn precedes_total(self, a: (bool, bool, usize), b: (bool, bool, usize)) {
    }

    proof fn precedes_transitive(
        self,
        a: (bool, bool, usize),
        b: (bool, bool, usize),
        c: (bool, bool, usize),
    ) {
    }

    fn precedes_exec(&self, a: &(bool, bool, usize), b: &(bool, bool, usize)) -> (r: bool) {
        if a.0 != b.0 {
            !a.0
        } else if a.1 != b.1 {
            !a.1
        } else {
            a.2 <= b.2
        }
    }
}

/// The ranks of the projects at `positions`.
pub open spec fn ranks_at(all: Seq<Project>, positions: Seq<usize>) -> Seq<(bool, bool, usize)> {
    positions.map_values(|i: usize| rank_of(all[i as int]))
}

/// Whether position `j` holds a path already among the projects at `kept`.
pub open spec fn path_among(all: Seq<Project>, kept: Seq<usize>, j: usize) -> bool {
    exists|m: int| 0 <= m < kept.len() && same_path(all[kept[m] as int].path@, all[j as int].path@)
}

/// The positions kept when each checkout path is shown once: a project is
/// dropped when an earlier kept one has the same path.
pub open spec fn once_per_path(all: Seq<Project>, items: Seq<usize>) -> Seq<usize>
    decreases items.len(),
{
    if items.len() == 0 {
        seq![]
    } else {
        let kept = once_per_path(all, items.drop_last());
        if path_among(all, kept, items.last()) {
            kept
        } else {
            kept.push(items.last())
        }
    }
}

/// What the list shows for a search, given the stable order of the shown
/// projects by rank: those projects in that order, each path once.
pub open spec fn listing_of(all: Seq<Project>, query: Seq<char>, order: Seq<usize>) -> Seq<usize> {
    once_per_path(all, arranged(shown_positions(all, query, all.len() as int), order))
}

fn rank(project: &Project) -> (r: (bool, bool, usize))
    ensures
        r == rank_of(*project),
{
    let parts = components_of(project.path.as_str());
    let ghost pv = parts@.map_values(|c: String| c@);
    let mut runner = false;
    let mut k: usize = 0;
    while k < parts.len()
        invariant
            k <= parts@.len(),
            pv == parts@.map_values(|c: String| c@),
            runner == exists|m: int| 0 <= m < k && runner_component(#[trigger] pv[m]),
        decreases parts@.len() - k,
    {
        let c = chars_of(parts[k].as_str());
        let a = chars_of("actions-runners");
        let w = chars_of("_work");
        if crate::text::same_text(&c, &a) || crate::text::same_text(&c, &w) {
            assert(runner_component(pv[k as int]));
            runner = true;
        }
        k = k + 1;
    }
    let b = chars_of(project.branch.as_str());
    let main = chars_of("main");
    let master = chars_of("master");
    let side = !(crate::text::same_text(&b, &main) || crate::text::same_text(&b, &master));
    (runner, side, parts.len())
}

fn already_kept(all: &Vec<Project>, kept: &Vec<usize>, j: usize) -> (r: bool)
    requires
        j < all@.len(),
        forall|m: int| 0 <= m < kept@.len() ==> #[trigger] kept@[m] < all@.len(),
    ensures
        r == path_among(all@, kept@, j),
{
    let mut m: usize = 0;
    while m < kept.len()
        invariant
            m <= kept@.len(),
            j < all@.len(),
            forall|i: int| 0 <= i < kept@.len() ==> #[trigger] kept@[i] < all@.len(),
            forall|i: int|
                0 <= i < m ==> !same_path(#[trigger] all@[kept@[i] as int].path@, all@[j as int].path@),
        decreases kept@.len() - m,
    {
        if path_eq(all[kept[m]].path.as_str(), all[j].path.as_str()) {
            return true;
        }
        m = m + 1;
    }
    false
}

/// The projects a search shows, as positions into `all` (see
/// `listing_of`).
pub fn project_listing(all: &Vec<Project>, query: &str) -> (r: Vec<usize>)
    ensures
        exists|order: Seq<usize>|
            #![trigger listing_of(all@, query@, order)]
            {
                &&& is_permutation(order, shown_positions(all@, query@, all@.len() as int).len())
                &&& stably_sorted(ByRank, ranks_at(all@, shown_positions(all@, query@, all@.len() as int)), order)
                &&& r@ == listing_of(all@, query@, order)
            },
{
    let n = all.len();
    let mut shown: Vec<usize> = Vec::new();
    let mut keys: Vec<(bool, bool, usize)> = Vec::new();
    let mut k: usize = 0;
    while k < n
        invariant
            n == all@.len(),
            k <= n,
            shown@ == shown_positions(all@, query@, k as int),
            keys@ == ranks_at(all@, shown@),
            forall|m: int| 0 <= m < shown@.len() ==> #[trigger] shown@[m] < k,
        decreases n - k,
    {
        if project_shown(&all[k], query) {
            shown.push(k);
            keys.push(rank(&all[k]));
            assert(shown@ == shown_positions(all@, query@, k as int) + seq![k]);
        } else {
            assert(shown@ == shown_positions(all@, query@, k as int) + Seq::<usize>::empty());
        }
        assert(keys@ == ranks_at(all@, shown@));
        k = k + 1;
    }
    let order = stable_order(&ByRank, &keys);
    let ghost shown_view = shown@;
    let sorted = arrange(shown, &order);
    assert(sorted@ == arranged(shown_view, order@));
    proof {
        assert forall|m: int| 0 <= m < sorted@.len() implies #[trigger] sorted@[m] < n by {
            crate::order::lemma_permutation_contains(order@, shown_view.len(), order@[m]);
        }
    }
    let mut kept: Vec<usize> = Vec::new();
    let mut j: usize = 0;
    while j < sorted.len()
        invariant
            j <= sorted@.len(),
            n == all@.len(),
            forall|m: int| 0 <= m < sorted@.len() ==> #[trigger] sorted@[m] < n,
            forall|m: int| 0 <= m < kept@.len() ==> #[trigger] kept@[m] < n,
            kept@ == once_per_path(all@, sorted@.take(j as int)),
        decreases sorted@.len() - j,
    {
        proof {
            assert(sorted@.take(j + 1).drop_last() == sorted@.take(j as int));
            assert(sorted@.take(j + 1).last() == sorted@[j as int]);
        }
        if !already_kept(all, &kept, sorted[j]) {
            kept.push(sorted[j]);
        }
        j = j + 1;
    }
    assert(sorted@.take(sorted@.len() as int) == sorted@);
    assert(shown_view == shown_positions(all@, query@, all@.len() as int));
    assert(kept@ == listing_of(all@, query@, order@));
    kept
}

/// Whether a project has anything to commit or resolve.
pub open spec fn has_changes(p: Project) -> bool {
    p.dirty > 0 || p.conflicted > 0 || p.untracked > 0
}

/// The number of projects at `items[..k]` with changes.
pub open spec fn changed_count(all: Seq<Project>, items: Seq<usize>, k: int) -> nat
    decreases k,
{
    if k <= 0 {
        0
    } else {
        changed_count(all, items, k - 1) + if has_changes(all[items[k - 1] as int]) {
            1nat
        } else {
            0nat
        }
    }
}

/// The number of projects at `items[..k]` with conflicts.
pub open spec fn conflict_count(all: Seq<Project>, items: Seq<usize>, k: int) -> nat
    decreases k,
{
    if k <= 0 {
        0
    } else {
        conflict_count(all, items, k - 1) + if all[items[k - 1] as int].conflicted > 0 {
            1nat
        } else {
            0nat
        }
    }
}

/// The number of build folders of the projects at `items[..k]`.
pub open spec fn cache_count(all: Seq<Project>, items: Seq<usize>, k: int) -> nat
    decreases k,
{
    if k <= 0 {
        0
    } else {
        cache_count(all, items, k - 1) + all[items[k - 1] as int].artifacts@.len()
    }
}

/// The status line over the listed projects.
pub open spec fn list_status_of(all: Seq<Project>, items: Seq<usize>) -> Seq<char> {
    let n = items.len() as int;
    decimal(items.len()) + " projects · "@ + decimal(changed_count(all, items, n)) + " with changes · "@
        + decimal(conflict_count(all, items, n)) + " conflicts · "@ + decimal(cache_count(all, items, n))
        + " caches"@
}

proof fn lemma_counts_bounded(all: Seq<Project>, items: Seq<usize>, k: int)
    requires
        0 <= k,
    ensures
        changed_count(all, items, k) <= k,
        conflict_count(all, items, k) <= k,
    decreases k,
{
    if k > 0 {
        lemma_counts_bounded(all, items, k - 1);
    }
}

proof fn lemma_caches_grow(all: Seq<Project>, items: Seq<usize>, j: int, k: int)
    requires
        0 <= j <= k,
    ensures
        cache_count(all, items, j) <= cache_count(all, items, k),
    decreases k - j,
{
    if j < k {
        lemma_caches_grow(all, items, j, k - 1);
    }
}

/// The status line over the listed projects (see `list_status_of`).
pub fn list_status(all: &Vec<Project>, items: &Vec<usize>) -> (r: String)
    requires
        forall|m: int| 0 <= m < items@.len() ==> #[trigger] items@[m] < all@.len(),
        cache_count(all@, items@, items@.len() as int) <= u64::MAX,
    ensures
        r@ == list_status_of(all@, items@),
{
    let n = items.len();
    let mut changed: u64 = 0;
    let mut conflicts: u64 = 0;
    let mut caches: u64 = 0;
    let mut k: usize = 0;
    while k < n
        invariant
            n == items@.len(),
            k <= n,
            forall|m: int| 0 <= m < items@.len() ==> #[trigger] items@[m] < all@.len(),
            cache_count(all@, items@, n as int) <= u64::MAX,
            changed == changed_count(all@, items@, k as int),
            conflicts == conflict_count(all@, items@, k as int),
            caches == cache_count(all@, items@, k as int),
        decreases n - k,
    {
        proof {
            lemma_counts_bounded(all@, items@, k as int);
            lemma_caches_grow(all@, items@, k + 1, n as int);
        }
        let p = &all[items[k]];
        if p.dirty > 0 || p.conflicted > 0 || p.untracked > 0 {
            changed = changed + 1;
        }
        if p.conflicted > 0 {
            conflicts = conflicts + 1;
        }
        caches = caches + p.artifacts.len() as u64;
        k = k + 1;
    }
    let mut s = String::new();
    push_decimal(&mut s, n as u64);
    push_text(&mut s, " projects · ");
    push_decimal(&mut s, changed);
    push_text(&mut s, " with changes · ");
    push_decimal(&mut s, conflicts);
    push_text(&mut s, " conflicts · ");
    push_decimal(&mut s, caches);
    push_text(&mut s, " caches");
    s
}

/// The empty list's title and hint: an invitation without a search, a
/// suggestion with one.
pub fn empty_texts(searching: bool) -> (r: (&'static str, &'static str))
    ensures
        r.0@ == if searching {
            "No matching projects"@
        } else {
            "Your next project starts here"@
        },
        r.1@ == if searching {
            "Try another project name, branch, or toolchain."@
        } else {
            "Refresh to discover repositories in your index."@
        },
{
    if searching {
        ("No matching projects", "Try another project name, branch, or toolchain.")
    } else {
        ("Your next project starts here", "Refresh to discover repositories in your index.")
    }
}

/// The list shows each checkout path once: no two listed projects have
/// equal paths, and every shown project is listed or has its path listed.
pub proof fn listing_once_per_path(all: Seq<Project>, items: Seq<usize>)
    ensures
        forall|i: int, j: int|
            0 <= i < j < once_per_path(all, items).len() ==> !same_path(
                all[#[trigger] once_per_path(all, items)[i] as int].path@,
                all[#[trigger] once_per_path(all, items)[j] as int].path@,
            ),
        forall|k: int|
            0 <= k < items.len() ==> once_per_path(all, items).contains(#[trigger] items[k])
                || path_among(all, once_per_path(all, items), items[k]),
    decreases items.len(),
{
    if items.len() > 0 {
        let q = items.drop_last();
        listing_once_per_path(all, q);
        let kept = once_per_path(all, q);
        let x = items.last();
        let out = once_per_path(all, items);
        if path_among(all, kept, x) {
            assert(out == kept);
        } else {
            assert(out == kept.push(x));
            assert forall|i: int, j: int| 0 <= i < j < out.len() implies !same_path(
                all[#[trigger] out[i] as int].path@,
                all[#[trigger] out[j] as int].path@,
            ) by {
                assert(out[i] == kept[i]);
                if j < kept.len() {
                    assert(out[j] == kept[j]);
                }
            }
        }
        assert forall|k: int| 0 <= k < items.len() implies out.contains(#[trigger] items[k])
            || path_among(all, out, items[k]) by {
            if k < q.len() {
                assert(items[k] == q[k]);
                if kept.contains(q[k]) {
                    let w = choose|w: int| 0 <= w < kept.len() && kept[w] == q[k];
                    assert(out[w] == kept[w]);
                } else {
                    let w = choose|w: int|
                        0 <= w < kept.len() && same_path(all[kept[w] as int].path@, all[q[k] as int].path@);
                    assert(out[w] == kept[w]);
                }
            } else if path_among(all, kept, x) {
                let w = choose|w: int|
                    0 <= w < kept.len() && same_path(all[kept[w] as int].path@, all[x as int].path@);
                assert(out[w] == kept[w]);
            } else {
                assert(out[kept.len() as int] == x);
            }
        }
    }
}

} // verus!
