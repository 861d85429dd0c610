//! The Git changes panel: the footer's summary, the list of changed files,
//! the git commands behind Stage and the diff, and the texts the panel
//! shows around them.

use vstd::prelude::*;

use crate::git_actions::texts;
use crate::lines::{lines_of, split_lines};
use crate::manager::{char_views, pieces_of, split_on};
use crate::order::{arrange, arranged, is_permutation, stable_order, stably_sorted, Precedence};
use crate::paths::{
    components_of,
    is_absolute_path,
    path_components,
    path_eq,
    path_is_absolute,
    path_strip_prefix,
    same_path,
    strip_prefix_of,
};
use crate::settings::{trim, trimmed};
use crate::text::{
    chars_of,
    compare_text,
    contains,
    contains_text,
    decimal,
    owned,
    push_decimal,
    push_text,
    same_text,
    string_from,
    text_order,
    text_order_total,
};

verus! {

/// The footer's summary: the branch, then `clean` or the number of
/// changed entries in git's short status (one per line).
pub open spec fn status_label_of(branch: Seq<char>, status: Seq<char>) -> Seq<char> {
    let count = lines_of(status).len();
    trimmed(branch) + " · "@ + if count == 0 {
        "clean"@
    } else {
        decimal(count) + if count == 1 {
            " change"@
        } else {
            " changes"@
        }
    }
}

/// The footer's summary (see `status_label_of`).
pub fn status_label(branch: &str, status: &str) -> (r: String)
    ensures
        r@ == status_label_of(branch@, status@),
{
    let sc = chars_of(status);
    let lines = split_lines(&sc);
    let count = lines.len();
    let mut s = trim(branch);
    push_text(&mut s, " · ");
    if count == 0 {
        push_text(&mut s, "clean");
    } else {
        push_decimal(&mut s, count as u64);
        if count == 1 {
            push_text(&mut s, " change");
        } else {
            push_text(&mut s, " changes");
        }
    }
    s
}

/// Texts ordered as `str` orders them.
pub struct ByText;

impl Precedence<Vec<char>> for ByText {
    open spec fn precedes(self, a: Vec<char>, b: Vec<char>) -> bool {
        text_order(a@, b@) <= 0
    }

    proof fn precedes_total(self, a: Vec<char>, b: Vec<char>) {
        text_order_total(a@, b@, a@);
    }

    proof fn precedes_transitive(self, a: Vec<char>, b: Vec<char>, c: Vec<char>) {
        text_order_total(a@, b@, c@);
    }

    fn precedes_exec(&self, a: &Vec<char>, b: &Vec<char>) -> (r: bool) {
        compare_text(a, b) <= 0
    }
}

/// The non-empty pieces among the first `k` of `ps`, in order.
pub open spec fn nonempty_pieces(ps: Seq<Seq<char>>, k: int) -> Seq<Seq<char>>
    decreases k,
{
    if k <= 0 {
        seq![]
    } else {
        nonempty_pieces(ps, k - 1) + if ps[k - 1].len() > 0 {
            seq![ps[k - 1]]
        } else {
            seq![]
        }
    }
}

/// `items` with each run of equal texts reduced to one (`Vec::dedup`).
pub open spec fn dedup_texts(items: Seq<Seq<char>>) -> Seq<Seq<char>>
    decreases items.len(),
{
    if items.len() == 0 {
        seq![]
    } else {
        let kept = dedup_texts(items.drop_last());
        if kept.len() > 0 && kept.last() == items.last() {
            kept
        } else {
            kept.push(items.last())
        }
    }
}

/// The changed files git listed, given the stable order of its non-empty
/// NUL-separated names: those names sorted, each once.
pub open spec fn changed_files_of(names: Seq<char>, order: Seq<usize>) -> Seq<Seq<char>> {
    let ps = pieces_of(names, '\0');
    dedup_texts(arranged(nonempty_pieces(ps, ps.len() as int), order))
}

/// The changed files from git's NUL-separated name lists (see
/// `changed_files_of`).
pub fn changed_files(names: &str) -> (r: Vec<String>)
    ensures
        exists|keys: Seq<Vec<char>>, order: Seq<usize>|
            #![trigger changed_files_of(names@, order), char_views(keys)]
            {
                &&& char_views(keys) == nonempty_pieces(pieces_of(names@, '\0'), pieces_of(names@, '\0').len() as int)
                &&& is_permutation(order, keys.len())
                &&& stably_sorted(ByText, keys, order)
                &&& texts(r@) == changed_files_of(names@, order)
            },
{
    let nc = chars_of(names);
    let ps = split_on(&nc, '\0');
    let ghost pv = char_views(ps@);
    let mut keys: Vec<Vec<char>> = Vec::new();
    let mut k: usize = 0;
    while k < ps.len()
        invariant
            k <= ps@.len(),
            pv == char_views(ps@),
            char_views(keys@) == nonempty_pieces(pv, k as int),
        decreases ps@.len() - k,
    {
        assert(pv[k as int] == ps@[k as int]@);
        if ps[k].len() > 0 {
            let ghost before = char_views(keys@);
            keys.push(ps[k].clone());
            assert(char_views(keys@) == before.push(pv[k as int]));
            assert(before.push(pv[k as int]) == before + seq![pv[k as int]]);
        } else {
            assert(char_views(keys@) == char_views(keys@) + Seq::<Seq<char>>::empty());
        }
        k = k + 1;
    }
    let order = stable_order(&ByText, &keys);
    let ghost key_view = keys@;
    let sorted = arrange(keys, &order);
    assert(sorted@ == arranged(key_view, order@));
    assert(char_views(sorted@) == arranged(char_views(key_view), order@)) by {
        crate::order::lemma_permutation_contains(order@, key_view.len(), 0);
        assert forall|m: int| 0 <= m < sorted@.len() implies #[trigger] char_views(sorted@)[m]
            == arranged(char_views(key_view), order@)[m] by {
            crate::order::lemma_permutation_contains(order@, key_view.len(), order@[m]);
        }
    }
    let mut out: Vec<String> = Vec::new();
    let mut j: usize = 0;
    while j < sorted.len()
        invariant
            j <= sorted@.len(),
            texts(out@) == dedup_texts(char_views(sorted@).take(j as int)),
        decreases sorted@.len() - j,
    {
        proof {
            assert(char_views(sorted@).take(j + 1).drop_last() == char_views(sorted@).take(j as int));
            assert(char_views(sorted@).take(j + 1).last() == sorted@[j as int]@);
        }
        let n = out.len();
        let ghost before = texts(out@);
        if n > 0 {
            let last = chars_of(out[n - 1].as_str());
            assert(before.last() == out@[n - 1]@);
            if same_text(&last, &sorted[j]) {
                j = j + 1;
                continue;
            }
        }
        out.push(string_from(&sorted[j]));
        assert(texts(out@) == before.push(sorted@[j as int]@));
        j = j + 1;
    }
    assert(char_views(sorted@).take(sorted@.len() as int) == char_views(sorted@));
    assert(pv == pieces_of(names@, '\0'));
    assert(char_views(key_view) == nonempty_pieces(pv, pv.len() as int));
    assert(texts(out@) == changed_files_of(names@, order@));
    assert(char_views(key_view) == nonempty_pieces(pieces_of(names@, '\0'), pieces_of(names@, '\0').len() as int));
    out
}

/// The git command (after `git`) that stages a file, or unstages it from
/// the index: `add`; `restore --staged`, or `rm --cached` in a repository
/// without a first commit.
pub fn stage_command(staged: bool, has_head: bool) -> (r: Vec<String>)
    ensures
        texts(r@) == if !staged {
            seq!["add"@]
        } else if has_head {
            seq!["restore"@, "--staged"@]
        } else {
            seq!["rm"@, "--cached"@]
        },
{
    let mut r: Vec<String> = Vec::new();
    if !staged {
        r.push(owned("add"));
        assert(texts(r@) == seq!["add"@]);
    } else if has_head {
        r.push(owned("restore"));
        r.push(owned("--staged"));
        assert(texts(r@) == seq!["restore"@, "--staged"@]);
    } else {
        r.push(owned("rm"));
        r.push(owned("--cached"));
        assert(texts(r@) == seq!["rm"@, "--cached"@]);
    }
    r
}

/// Whether a changed file's path may be staged: relative, and made of
/// named components only (no root, `.` or `..`).
pub open spec fn stageable_path_of(path: Seq<char>) -> bool {
    let parts = path_components(path);
    &&& !path_is_absolute(path)
    &&& forall|k: int|
        0 <= k < parts.len() ==> {
            let c = #[trigger] parts[k];
            c != "/"@ && c != "."@ && c != ".."@
        }
}

/// Whether a changed file's path may be staged (see `stageable_path_of`);
/// the panel refuses others as an invalid repository-relative path.
pub fn stageable_path(path: &str) -> (r: bool)
    ensures
        r == stageable_path_of(path@),
{
    if is_absolute_path(path) {
        return false;
    }
    let parts = components_of(path);
    let ghost pv = texts(parts@);
    let root = chars_of("/");
    let here = chars_of(".");
    let up = chars_of("..");
    let mut k: usize = 0;
    while k < parts.len()
        invariant
            k <= parts@.len(),
            pv == texts(parts@),
            pv == path_components(path@),
            root@ == "/"@,
            here@ == "."@,
            up@ == ".."@,
            forall|m: int|
                0 <= m < k ==> {
                    let c = #[trigger] pv[m];
                    c != "/"@ && c != "."@ && c != ".."@
                },
        decreases parts@.len() - k,
    {
        let c = chars_of(parts[k].as_str());
        assert(pv[k as int] == c@);
        if same_text(&c, &root) || same_text(&c, &here) || same_text(&c, &up) {
            return false;
        }
        k = k + 1;
    }
    true
}

/// The git command (after `git`) listing the changed names, NUL-separated:
/// of the index with `staged`, else of the working tree.
pub fn names_command(staged: bool) -> (r: Vec<String>)
    ensures
        texts(r@) == if staged {
            seq!["diff"@, "--name-only"@, "-z"@, "--cached"@]
        } else {
            seq!["diff"@, "--name-only"@, "-z"@]
        },
{
    let mut r: Vec<String> = Vec::new();
    r.push(owned("diff"));
    r.push(owned("--name-only"));
    r.push(owned("-z"));
    if staged {
        r.push(owned("--cached"));
        assert(texts(r@) == seq!["diff"@, "--name-only"@, "-z"@, "--cached"@]);
    } else {
        assert(texts(r@) == seq!["diff"@, "--name-only"@, "-z"@]);
    }
    r
}

/// The git command (after `git`) producing the diff shown: plain, without
/// external tools or colour; of the index with `staged`.
pub fn diff_command(staged: bool) -> (r: Vec<String>)
    ensures
        texts(r@) == if staged {
            seq!["diff"@, "--no-ext-diff"@, "--no-textconv"@, "--no-color"@, "--cached"@]
        } else {
            seq!["diff"@, "--no-ext-diff"@, "--no-textconv"@, "--no-color"@]
        },
{
    let mut r: Vec<String> = Vec::new();
    r.push(owned("diff"));
    r.push(owned("--no-ext-diff"));
    r.push(owned("--no-textconv"));
    r.push(owned("--no-color"));
    if staged {
        r.push(owned("--cached"));
        assert(texts(r@) == seq!["diff"@, "--no-ext-diff"@, "--no-textconv"@, "--no-color"@, "--cached"@]);
    } else {
        assert(texts(r@) == seq!["diff"@, "--no-ext-diff"@, "--no-textconv"@, "--no-color"@]);
    }
    r
}

/// What the diff area shows when git printed no diff: a note for the
/// index, or for the working tree a hint followed by the short status.
pub fn empty_diff_text(staged: bool, status: &str) -> (r: String)
    ensures
        r@ == if staged {
            "No staged changes for this selection."@
        } else {
            "No unstaged diff for this selection.\nChoose an untracked file above to preview its additions.\n\n"@
                + status@
        },
{
    if staged {
        owned("No staged changes for this selection.")
    } else {
        let mut s = owned(
            "No unstaged diff for this selection.\nChoose an untracked file above to preview its additions.\n\n",
        );
        push_text(&mut s, status);
        s
    }
}

/// The Stage button's label, and the texts shown while and after it runs.
pub fn stage_texts(staged: bool) -> (r: (&'static str, &'static str, &'static str))
    ensures
        r.0@ == if staged {
            "Unstage file"@
        } else {
            "Stage file"@
        },
        r.1@ == if staged {
            "Unstaging file…"@
        } else {
            "Staging file…"@
        },
        r.2@ == if staged {
            "File unstaged"@
        } else {
            "File staged"@
        },
{
    if staged {
        ("Unstage file", "Unstaging file…", "File unstaged")
    } else {
        ("Stage file", "Staging file…", "File staged")
    }
}

/// The footer after git failed: outside a repository, or otherwise.
pub fn failure_label(error: &str) -> (r: &'static str)
    ensures
        r@ == if contains_text(error@, "not a git repository"@) {
            "Not a Git repo"@
        } else {
            "Git · unavailable"@
        },
{
    let e = chars_of(error);
    let needle = chars_of("not a git repository");
    if contains(&e, &needle) {
        "Not a Git repo"
    } else {
        "Git · unavailable"
    }
}

/// The line naming what the diff covers: the chosen file, else the
/// selected path, relative to the repository when it lies inside it; all
/// changes otherwise.
pub open spec fn scope_text_of(file: Option<Seq<char>>, selected: Option<Seq<char>>, root: Seq<char>) -> Seq<char> {
    let shown = match file {
        Some(f) => Some(f),
        None => selected,
    };
    match shown {
        Some(p) => match path_strip_prefix(p, root) {
            Some(r) => r,
            None => p,
        },
        None => "All tracked changes"@,
    }
}

/// The line naming what the diff covers (see `scope_text_of`).
pub fn scope_text(file: Option<&str>, selected: Option<&str>, root: &str) -> (r: String)
    ensures
        r@ == scope_text_of(
            match file {
                Some(f) => Some(f@),
                None => None,
            },
            match selected {
                Some(s) => Some(s@),
                None => None,
            },
            root@,
        ),
{
    let shown = match file {
        Some(f) => Some(f),
        None => selected,
    };
    match shown {
        Some(p) => match strip_prefix_of(p, root) {
            Some(r) => r,
            None => owned(p),
        },
        None => owned("All tracked changes"),
    }
}

/// The first position among `names[i..]` naming the same path as `file`.
pub open spec fn choice_of(names: Seq<Seq<char>>, file: Seq<char>, i: int) -> Option<int>
    decreases names.len() - i,
{
    if i < 0 || i >= names.len() {
        None
    } else if same_path(names[i], file) {
        Some(i)
    } else {
        choice_of(names, file, i + 1)
    }
}

/// The entry the file picker keeps after its list changes: the one naming
/// the chosen file, else the first (All changes).
pub fn picker_position(names: &Vec<String>, file: Option<&str>) -> (r: usize)
    ensures
        r as int == match file {
            Some(f) => match choice_of(texts(names@), f@, 0) {
                Some(i) => i,
                None => 0,
            },
            None => 0,
        },
{
    match file {
        None => 0,
        Some(f) => {
            let mut i: usize = 0;
            while i < names.len()
                invariant
                    i <= names@.len(),
                    file == Some(f),
                    choice_of(texts(names@), f@, 0) == choice_of(texts(names@), f@, i as int),
                decreases names@.len() - i,
            {
                assert(texts(names@)[i as int] == names@[i as int]@);
                if path_eq(names[i].as_str(), f) {
                    assert(choice_of(texts(names@), f@, i as int) == Some(i as int));
                    return i;
                }
                i = i + 1;
            }
            0
        },
    }
}

proof fn lemma_dedup_sorted(items: Seq<Seq<char>>)
    requires
        forall|i: int, j: int| 0 <= i < j < items.len() ==> text_order(#[trigger] items[i], #[trigger] items[j]) <= 0,
    ensures
        forall|i: int, j: int|
            0 <= i < j < dedup_texts(items).len() ==> text_order(
                #[trigger] dedup_texts(items)[i],
                #[trigger] dedup_texts(items)[j],
            ) < 0,
        forall|x: Seq<char>| dedup_texts(items).contains(x) <==> items.contains(x),
    decreases items.len(),
{
    if items.len() > 0 {
        let q = items.drop_last();
        assert forall|i: int, j: int| 0 <= i < j < q.len() implies text_order(#[trigger] q[i], #[trigger] q[j]) <= 0 by {
            assert(q[i] == items[i] && q[j] == items[j]);
        }
        lemma_dedup_sorted(q);
        let kept = dedup_texts(q);
        let x = items.last();
        let out = dedup_texts(items);
        assert forall|y: Seq<char>| q.contains(y) || y == x <==> items.contains(y) by {
            if items.contains(y) {
                let w = choose|w: int| 0 <= w < items.len() && items[w] == y;
                if w < q.len() {
                    assert(q[w] == y);
                }
            }
            if q.contains(y) {
                let w = choose|w: int| 0 <= w < q.len() && q[w] == y;
                assert(items[w] == y);
            }
            if y == x {
                assert(items[items.len() - 1] == y);
            }
        }
        if kept.len() > 0 && kept.last() == x {
            assert(out == kept);
            assert(kept.contains(x)) by {
                assert(kept[kept.len() - 1] == x);
            }
        } else {
            assert(out == kept.push(x));
            assert forall|i: int| 0 <= i < kept.len() implies text_order(#[trigger] kept[i], x) < 0 by {
                assert(kept.contains(kept[i]));
                assert(q.contains(kept[i]));
                let w = choose|w: int| 0 <= w < q.len() && q[w] == kept[i];
                assert(items[w] == kept[i]);
                assert(text_order(items[w], items[items.len() - 1]) <= 0);
                text_order_total(kept[i], x, kept[i]);
                if kept[i] == x {
                    let last = kept.last();
                    assert(kept.contains(last)) by {
                        assert(kept[kept.len() - 1] == last);
                    }
                    let w2 = choose|w2: int| 0 <= w2 < q.len() && q[w2] == last;
                    assert(items[w2] == last);
                    assert(text_order(items[w2], items[items.len() - 1]) <= 0);
                    assert(i < kept.len() - 1);
                    assert(text_order(kept[i], kept[kept.len() - 1]) < 0);
                    text_order_total(x, last, x);
                }
            }
            assert forall|i: int, j: int| 0 <= i < j < out.len() implies text_order(#[trigger] out[i], #[trigger] out[j]) < 0 by {
                assert(out[i] == kept[i]);
                if j < kept.len() {
                    assert(out[j] == kept[j]);
                } else {
                    assert(out[j] == x);
                }
            }
            assert forall|y: Seq<char>| out.contains(y) <==> kept.contains(y) || y == x by {
                if out.contains(y) {
                    let w = choose|w: int| 0 <= w < out.len() && out[w] == y;
                    if w < kept.len() {
                        assert(kept[w] == y);
                    }
                }
                if kept.contains(y) {
                    let w = choose|w: int| 0 <= w < kept.len() && kept[w] == y;
                    assert(out[w] == y);
                }
                if y == x {
                    assert(out[kept.len() as int] == y);
                }
            }
        }
    }
}

/// The changed-file list is sorted with no repeats, and holds exactly the
/// names git printed (empty pieces aside).
pub proof fn changed_files_sorted_once(names: Seq<char>, keys: Seq<Vec<char>>, order: Seq<usize>)
    requires
        char_views(keys) == nonempty_pieces(pieces_of(names, '\0'), pieces_of(names, '\0').len() as int),
        keys.len() <= usize::MAX,
        is_permutation(order, keys.len()),
        stably_sorted(ByText, keys, order),
    ensures
        forall|i: int, j: int|
            0 <= i < j < changed_files_of(names, order).len() ==> text_order(
                #[trigger] changed_files_of(names, order)[i],
                #[trigger] changed_files_of(names, order)[j],
            ) < 0,
        forall|x: Seq<char>|
            changed_files_of(names, order).contains(x) <==> char_views(keys).contains(x),
{
    let ks = char_views(keys);
    let sorted = arranged(ks, order);
    assert forall|i: int, j: int| 0 <= i < j < sorted.len() implies text_order(#[trigger] sorted[i], #[trigger] sorted[j]) <= 0 by {
        assert(crate::order::in_order(ByText, keys, order[i], order[j]));
        crate::order::lemma_permutation_contains(order, keys.len(), order[i]);
        crate::order::lemma_permutation_contains(order, keys.len(), order[j]);
        assert(ks[order[i] as int] == keys[order[i] as int]@);
        assert(ks[order[j] as int] == keys[order[j] as int]@);
    }
    lemma_dedup_sorted(sorted);
    assert forall|x: Seq<char>| sorted.contains(x) <==> ks.contains(x) by {
        if sorted.contains(x) {
            let w = choose|w: int| 0 <= w < sorted.len() && sorted[w] == x;
            crate::order::lemma_permutation_contains(order, keys.len(), order[w]);
            assert(ks[order[w] as int] == x);
        }
        if ks.contains(x) {
            let w = choose|w: int| 0 <= w < ks.len() && ks[w] == x;
            crate::order::lemma_permutation_contains(order, keys.len(), w as usize);
            assert(order.contains(w as usize));
            let v = choose|v: int| 0 <= v < order.len() && order[v] == w as usize;
            assert(order[v] as int == w);
            assert(sorted[v] == ks[order[v] as int]);
            assert(sorted[v] == x);
        }
    }
}

} // verus!
