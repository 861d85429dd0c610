//! The git verbs of the project inspector: which git command each button
//! runs, and what the command box and output area show.

use vstd::prelude::*;

use crate::lines::{find_last, last_of};
use crate::paths::{file_name_of, path_eq, path_file_name, same_path};
use crate::projects::{health_of, health_text, pill_of, status_pill, Project};
use crate::settings::{trim, trimmed};
use crate::text::{
    begins_with,
    chars_of,
    owned,
    push_text,
    split_words,
    starts_with,
    string_from,
    words,
};

verus! {

/// The views of a list of words.
pub open spec fn texts(v: Seq<String>) -> Seq<Seq<char>> {
    v.map_values(|w: String| w@)
}

fn strings_of(words: &Vec<Vec<char>>) -> (r: Vec<String>)
    ensures
        texts(r@) == words@.map_values(|w: Vec<char>| w@),
{
    let mut out: Vec<String> = Vec::new();
    let n = words.len();
    for k in 0..n
        invariant
            n == words@.len(),
            texts(out@) == words@.map_values(|w: Vec<char>| w@).take(k as int),
    {
        let ghost before = texts(out@);
        out.push(string_from(&words[k]));
        proof {
            assert(texts(out@) == before.push(words@[k as int]@));
            assert(words@.map_values(|w: Vec<char>| w@).take(k + 1) == words@.map_values(
                |w: Vec<char>| w@,
            ).take(k as int).push(words@[k as int]@));
        }
    }
    assert(words@.map_values(|w: Vec<char>| w@).take(n as int) == words@.map_values(|w: Vec<char>| w@));
    out
}

pub(crate) fn word_list(items: &[&str]) -> (r: Vec<String>)
    ensures
        r@.len() == items@.len(),
        forall|k: int| 0 <= k < items@.len() ==> #[trigger] r@[k]@ == items@[k]@,
{
    let mut out: Vec<String> = Vec::new();
    let n = items.len();
    for k in 0..n
        invariant
            n == items@.len(),
            out@.len() == k,
            forall|m: int| 0 <= m < k ==> #[trigger] out@[m]@ == items@[m]@,
    {
        out.push(owned(items[k]));
    }
    out
}

/// What Push runs: `push -u origin <branch>` for a branch without an
/// upstream, else a plain `push`.
pub open spec fn push_words(branch: Seq<char>, target: Seq<char>) -> Seq<Seq<char>> {
    if target.len() == 0 && branch.len() > 0 {
        seq!["push"@, "-u"@, "origin"@, branch]
    } else {
        seq!["push"@]
    }
}

/// The arguments of Push (see `push_words`).
pub fn push_args(project: &Project) -> (r: Vec<String>)
    ensures
        texts(r@) == push_words(project.branch@, project.target@),
{
    if project.target.as_str().is_empty() && !project.branch.as_str().is_empty() {
        let r = word_list(&["push", "-u", "origin", project.branch.as_str()]);
        assert(texts(r@) == seq!["push"@, "-u"@, "origin"@, project.branch@]);
        r
    } else {
        let r = word_list(&["push"]);
        assert(texts(r@) == seq!["push"@]);
        r
    }
}

/// The branch a merge goes into: the upstream without its `origin/`.
pub open spec fn merge_target_of(target: Seq<char>) -> Seq<char> {
    if starts_with(target, "origin/"@) {
        target.skip(7)
    } else {
        target
    }
}

/// The merge target of a project (see `merge_target_of`).
pub fn merge_target(target: &str) -> (r: String)
    ensures
        r@ == merge_target_of(target@),
{
    let t = chars_of(target);
    let origin = chars_of("origin/");
    proof {
        reveal_strlit("origin/");
    }
    if begins_with(&t, &origin) {
        let mut rest: Vec<char> = Vec::new();
        let mut k: usize = 7;
        while k < t.len()
            invariant
                7 <= k <= t@.len(),
                rest@ == t@.subrange(7, k as int),
            decreases t@.len() - k,
        {
            rest.push(t[k]);
            k = k + 1;
        }
        assert(rest@ == t@.skip(7));
        string_from(&rest)
    } else {
        owned(target)
    }
}

/// Whether `v` holds a path equal (as a path) to `p`.
pub open spec fn holds_path(v: Seq<String>, p: Seq<char>) -> bool {
    exists|k: int| 0 <= k < v.len() && same_path(v[k]@, p)
}

/// A checkout to merge in: on the target branch and the same checkout or
/// a worktree of the same repository.
pub open spec fn is_sibling(p: Project, project: Project, target: Seq<char>) -> bool {
    &&& p.branch@ == target
    &&& same_path(p.path@, project.path@) || holds_path(project.worktrees@, p.path@) || holds_path(
        p.worktrees@,
        project.path@,
    )
}

/// The first checkout among `projects[i..]` to merge in.
pub open spec fn first_sibling(projects: Seq<Project>, project: Project, target: Seq<char>, i: int) -> Option<int>
    decreases projects.len() - i,
{
    if i < 0 || i >= projects.len() {
        None
    } else if is_sibling(projects[i], project, target) {
        Some(i)
    } else {
        first_sibling(projects, project, target, i + 1)
    }
}

/// How Merge proceeds.
pub struct MergePlan {
    /// Where git runs.
    pub dir: String,
    /// The first command; after a `switch` the merge follows.
    pub args: Vec<String>,
    /// Whether the checkout switches to the target first.
    pub switching: bool,
    /// The confirmation's message and detail.
    pub message: String,
    pub detail: String,
}

/// The merge of `project`'s branch into its target: in a sibling checkout
/// on the target when there is one (`merge --no-ff <branch>`), else in
/// the project's checkout after `switch <target>`.  `None` when there is
/// no target or branch, or the branch is the target.
pub open spec fn merge_plan_of(projects: Seq<Project>, project: Project, plan: Option<MergePlan>) -> bool {
    let target = merge_target_of(project.target@);
    if target.len() == 0 || project.branch@.len() == 0 || project.branch@ == target {
        plan is None
    } else {
        plan matches Some(m) && {
            let note = match first_sibling(projects, project, target, 0) {
                Some(i) => "in "@ + projects[i].path@,
                None => "after switching this checkout"@,
            };
            &&& m.message@ == "Merge "@ + project.branch@ + " into "@ + target + "?"@
            &&& m.detail@ == "git merge --no-ff "@ + project.branch@ + " "@ + note
            &&& match first_sibling(projects, project, target, 0) {
                Some(i) => {
                    &&& m.dir@ == projects[i].path@
                    &&& texts(m.args@) == seq!["merge"@, "--no-ff"@, project.branch@]
                    &&& !m.switching
                },
                None => {
                    &&& m.dir@ == project.path@
                    &&& texts(m.args@) == seq!["switch"@, target]
                    &&& m.switching
                },
            }
        }
    }
}

fn holds(v: &Vec<String>, p: &str) -> (r: bool)
    ensures
        r == holds_path(v@, p@),
{
    let mut k: usize = 0;
    while k < v.len()
        invariant
            k <= v@.len(),
            forall|m: int| 0 <= m < k ==> !same_path(v@[m]@, p@),
        decreases v@.len() - k,
    {
        if path_eq(v[k].as_str(), p) {
            return true;
        }
        k = k + 1;
    }
    false
}

fn find_sibling(projects: &Vec<Project>, project: &Project, target: &str) -> (r: Option<usize>)
    ensures
        r is None <==> first_sibling(projects@, *project, target@, 0) is None,
        r matches Some(i) ==> i < projects@.len() && first_sibling(projects@, *project, target@, 0)
            == Some(i as int),
{
    let t = chars_of(target);
    let mut i: usize = 0;
    while i < projects.len()
        invariant
            i <= projects@.len(),
            t@ == target@,
            first_sibling(projects@, *project, target@, 0) == first_sibling(
                projects@,
                *project,
                target@,
                i as int,
            ),
        decreases projects@.len() - i,
    {
        let p = &projects[i];
        let b = chars_of(p.branch.as_str());
        if crate::text::same_text(&b, &t) && (path_eq(p.path.as_str(), project.path.as_str()) || holds(
            &project.worktrees,
            p.path.as_str(),
        ) || holds(&p.worktrees, project.path.as_str())) {
            return Some(i);
        }
        i = i + 1;
    }
    None
}

/// The merge plan of a project among all known checkouts (see
/// `merge_plan_of`).
pub fn merge_plan(projects: &Vec<Project>, project: &Project) -> (r: Option<MergePlan>)
    ensures
        merge_plan_of(projects@, *project, r),
{
    let target = merge_target(project.target.as_str());
    let tc = chars_of(target.as_str());
    let bc = chars_of(project.branch.as_str());
    if tc.len() == 0 || bc.len() == 0 || crate::text::same_text(&bc, &tc) {
        return None;
    }
    let mut message = owned("Merge ");
    push_text(&mut message, project.branch.as_str());
    push_text(&mut message, " into ");
    push_text(&mut message, target.as_str());
    push_text(&mut message, "?");
    assert(message@ == "Merge "@ + project.branch@ + " into "@ + target@ + "?"@);
    assert(target@ == merge_target_of(project.target@));
    let mut detail = owned("git merge --no-ff ");
    push_text(&mut detail, project.branch.as_str());
    push_text(&mut detail, " ");
    match find_sibling(projects, project, target.as_str()) {
        Some(i) => {
            push_text(&mut detail, "in ");
            push_text(&mut detail, projects[i].path.as_str());
            assert(detail@ == "git merge --no-ff "@ + project.branch@ + " "@ + ("in "@
                + projects@[i as int].path@));
            let args = word_list(&["merge", "--no-ff", project.branch.as_str()]);
            assert(texts(args@) == seq!["merge"@, "--no-ff"@, project.branch@]);
            Some(
                MergePlan {
                    dir: owned(projects[i].path.as_str()),
                    args,
                    switching: false,
                    message,
                    detail,
                },
            )
        },
        None => {
            push_text(&mut detail, "after switching this checkout");
            assert(detail@ == "git merge --no-ff "@ + project.branch@ + " "@
                + "after switching this checkout"@);
            let args = word_list(&["switch", target.as_str()]);
            assert(texts(args@) == seq!["switch"@, target@]);
            Some(
                MergePlan {
                    dir: owned(project.path.as_str()),
                    args,
                    switching: true,
                    message,
                    detail,
                },
            )
        },
    }
}

/// The merge that follows a switch: `merge --no-ff <branch>`.
pub fn follow_up_merge(branch: &str) -> (r: Vec<String>)
    ensures
        texts(r@) == seq!["merge"@, "--no-ff"@, branch@],
{
    let r = word_list(&["merge", "--no-ff", branch]);
    assert(texts(r@) == seq!["merge"@, "--no-ff"@, branch@]);
    r
}

/// `s` with every leading and trailing `c` removed
/// (`str::trim_matches`).
pub open spec fn trim_both(s: Seq<char>, c: char) -> Seq<char>
    decreases s.len(),
{
    if s.len() > 0 && s[0] == c {
        trim_both(s.drop_first(), c)
    } else if s.len() > 0 && s.last() == c {
        trim_both(s.drop_last(), c)
    } else {
        s
    }
}

/// The part of `name` after its last `'/'`.
pub open spec fn last_segment(name: Seq<char>) -> Seq<char> {
    match last_of(name, name.len() as int, '/') {
        Some(p) => name.skip(p + 1),
        None => name,
    }
}

/// What New worktree runs for a typed branch name: the name trimmed of
/// whitespace and of slashes at both ends; nothing when that is empty,
/// else `worktree add ../<last segment> -b <name>`.
pub open spec fn worktree_words(input: Seq<char>) -> Option<Seq<Seq<char>>> {
    let name = trim_both(trimmed(input), '/');
    if name.len() == 0 {
        None
    } else {
        Some(seq!["worktree"@, "add"@, "../"@ + last_segment(name), "-b"@, name])
    }
}

fn trim_slashes(s: &Vec<char>) -> (r: Vec<char>)
    ensures
        r@ == trim_both(s@, '/'),
{
    let mut lo: usize = 0;
    let mut hi: usize = s.len();
    assert(s@.subrange(0, s@.len() as int) == s@);
    while lo < hi && (s[lo] == '/' || s[hi - 1] == '/')
        invariant
            lo <= hi <= s@.len(),
            trim_both(s@, '/') == trim_both(s@.subrange(lo as int, hi as int), '/'),
        decreases hi - lo,
    {
        let ghost cur = s@.subrange(lo as int, hi as int);
        if s[lo] == '/' {
            assert(cur.drop_first() == s@.subrange(lo + 1, hi as int));
            lo = lo + 1;
        } else {
            assert(cur.drop_last() == s@.subrange(lo as int, hi - 1));
            hi = hi - 1;
        }
    }
    let mut r: Vec<char> = Vec::new();
    let mut k = lo;
    while k < hi
        invariant
            lo <= k <= hi <= s@.len(),
            r@ == s@.subrange(lo as int, k as int),
        decreases hi - k,
    {
        r.push(s[k]);
        k = k + 1;
    }
    assert(s@.subrange(0, s@.len() as int) == s@);
    r
}

/// The arguments of New worktree (see `worktree_words`).
pub fn worktree_args(input: &str) -> (r: Option<Vec<String>>)
    ensures
        match worktree_words(input@) {
            Some(w) => r matches Some(v) && texts(v@) == w,
            None => r is None,
        },
{
    let t = trim(input);
    let tc = chars_of(t.as_str());
    let name = trim_slashes(&tc);
    if name.len() == 0 {
        return None;
    }
    let found = find_last(&name, name.len(), '/');
    let segment: Vec<char> = match found {
        Some(p) => {
            let mut seg: Vec<char> = Vec::new();
            let mut k = p + 1;
            while k < name.len()
                invariant
                    p + 1 <= k <= name@.len(),
                    seg@ == name@.subrange(p + 1, k as int),
                decreases name@.len() - k,
            {
                seg.push(name[k]);
                k = k + 1;
            }
            assert(seg@ == name@.skip(p + 1));
            seg
        },
        None => name.clone(),
    };
    proof {
        match last_of(name@, name@.len() as int, '/') {
            Some(p) => {
                assert(found == Some(p as usize));
            },
            None => {},
        }
    }
    let mut dest = owned("../");
    let seg_text = string_from(&segment);
    push_text(&mut dest, seg_text.as_str());
    let name_text = string_from(&name);
    let r = word_list(&["worktree", "add", dest.as_str(), "-b", name_text.as_str()]);
    assert(texts(r@) == seq!["worktree"@, "add"@, "../"@ + last_segment(name@), "-b"@, name@]);
    Some(r)
}

/// The repository and worktree Remove worktree names: the main checkout
/// (the first worktree, else the project itself) and the project.
pub fn worktree_removal(project: &Project) -> (r: (String, String))
    ensures
        r.0@ == if project.worktrees@.len() > 0 {
            project.worktrees@[0]@
        } else {
            project.path@
        },
        r.1@ == project.path@,
{
    let main = if project.worktrees.len() > 0 {
        owned(project.worktrees[0].as_str())
    } else {
        owned(project.path.as_str())
    };
    (main, owned(project.path.as_str()))
}

/// The words a typed git command runs: the text trimmed, a leading
/// `git ` dropped, split at whitespace.
pub open spec fn command_words_of(text: Seq<char>) -> Seq<Seq<char>> {
    let t = trimmed(text);
    if starts_with(t, "git "@) {
        words(t.skip(4))
    } else {
        words(t)
    }
}

/// The words of a typed git command (see `command_words_of`).
pub fn command_words(text: &str) -> (r: Vec<String>)
    ensures
        texts(r@) == command_words_of(text@),
{
    let t = trim(text);
    let tc = chars_of(t.as_str());
    let prefix = chars_of("git ");
    proof {
        reveal_strlit("git ");
    }
    let body: Vec<char> = if begins_with(&tc, &prefix) {
        let mut rest: Vec<char> = Vec::new();
        let mut k: usize = 4;
        while k < tc.len()
            invariant
                4 <= k <= tc@.len(),
                rest@ == tc@.subrange(4, k as int),
            decreases tc@.len() - k,
        {
            rest.push(tc[k]);
            k = k + 1;
        }
        assert(rest@ == tc@.skip(4));
        rest
    } else {
        tc
    };
    let ws = split_words(&body);
    assert(ws@.map_values(|w: Vec<char>| w@) == words(body@));
    strings_of(&ws)
}

/// The inspector's title for a project: the last `/`-separated part of its
/// repository name, or, without one, the checkout folder's name (or its
/// path).
pub open spec fn project_title_of(repository: Seq<char>, path: Seq<char>) -> Seq<char> {
    if repository.len() == 0 {
        match path_file_name(path) {
            Some(n) => n,
            None => path,
        }
    } else {
        last_segment(repository)
    }
}

/// The inspector's title (see `project_title_of`).
pub fn project_title(project: &Project) -> (r: String)
    ensures
        r@ == project_title_of(project.repository@, project.path@),
{
    if project.repository.as_str().is_empty() {
        match file_name_of(project.path.as_str()) {
            Some(n) => n,
            None => owned(project.path.as_str()),
        }
    } else {
        let rc = chars_of(project.repository.as_str());
        let found = find_last(&rc, rc.len(), '/');
        match found {
            Some(p) => {
                let mut seg: Vec<char> = Vec::new();
                let mut k = p + 1;
                while k < rc.len()
                    invariant
                        p + 1 <= k <= rc@.len(),
                        seg@ == rc@.subrange(p + 1, k as int),
                    decreases rc@.len() - k,
                {
                    seg.push(rc[k]);
                    k = k + 1;
                }
                assert(seg@ == rc@.skip(p + 1));
                string_from(&seg)
            },
            None => owned(project.repository.as_str()),
        }
    }
}

/// The output area while a git command runs.
pub fn running_text(args: &Vec<String>) -> (r: String)
    ensures
        r@ == "$ git "@ + crate::projects::joined(texts(args@), " "@) + "\n…"@,
{
    let mut s = owned("$ git ");
    crate::projects::push_joined(&mut s, args, " ");
    push_text(&mut s, "\n…");
    s
}

/// The output area after a git command: the command line, then its
/// output, `"done"` for a success without output, or the error.
pub fn finished_text(line: &str, result: Result<String, String>) -> (r: String)
    ensures
        r@ == "$ git "@ + line@ + "\n"@ + match result {
            Ok(out) => if trimmed(out@).len() == 0 {
                "done"@
            } else {
                out@
            },
            Err(e) => e@,
        },
{
    let mut s = owned("$ git ");
    push_text(&mut s, line);
    push_text(&mut s, "\n");
    match result {
        Ok(out) => {
            let t = trim(out.as_str());
            if t.as_str().is_empty() {
                push_text(&mut s, "done");
            } else {
                push_text(&mut s, out.as_str());
            }
        },
        Err(e) => push_text(&mut s, e.as_str()),
    }
    s
}

/// The Merge button: its label (`Merge → <target>`, or `Merge ↓` without
/// a target) and whether it can be pressed.
pub open spec fn merge_button_of(p: Project) -> (Seq<char>, bool) {
    let target = merge_target_of(p.target@);
    (
        if target.len() == 0 {
            "Merge ↓"@
        } else {
            "Merge → "@ + target
        },
        p.git && target.len() > 0 && p.branch@.len() > 0 && p.branch@ != target,
    )
}

/// The Merge button of a project (see `merge_button_of`).
pub fn merge_button(project: &Project) -> (r: (String, bool))
    ensures
        (r.0@, r.1) == merge_button_of(*project),
{
    let target = merge_target(project.target.as_str());
    let tc = chars_of(target.as_str());
    let bc = chars_of(project.branch.as_str());
    let enabled = project.git && tc.len() > 0 && bc.len() > 0 && !crate::text::same_text(&bc, &tc);
    if tc.len() == 0 {
        (owned("Merge ↓"), enabled)
    } else {
        let mut label = owned("Merge → ");
        push_text(&mut label, target.as_str());
        (label, enabled)
    }
}

/// Whether the project is a linked worktree: its first worktree (the main
/// checkout) is another path.  Remove worktree needs one.
pub open spec fn linked_of(p: Project) -> bool {
    p.worktrees@.len() > 0 && !same_path(p.worktrees@[0]@, p.path@)
}

/// Whether Remove worktree can be pressed: a git checkout that is a
/// linked worktree (see `linked_of`).
pub fn can_remove_worktree(project: &Project) -> (r: bool)
    ensures
        r == (project.git && linked_of(*project)),
{
    let linked = project.worktrees.len() > 0 && !path_eq(
        project.worktrees[0].as_str(),
        project.path.as_str(),
    );
    project.git && linked
}

/// The output area for a freshly selected project: its branch pill, its
/// working-tree summary, and its last commit (or `no commits`), one per
/// line.
pub open spec fn summary_of(p: Project) -> Seq<char> {
    pill_of(p) + "\n"@ + health_of(p) + "\n"@ + if p.last_commit@.len() == 0 {
        "no commits"@
    } else {
        p.last_commit@
    }
}

/// The summary shown in the output area (see `summary_of`).
pub fn inspector_summary(project: &Project) -> (r: String)
    ensures
        r@ == summary_of(*project),
{
    let mut s = status_pill(project);
    push_text(&mut s, "\n");
    let h = health_text(project);
    push_text(&mut s, h.as_str());
    push_text(&mut s, "\n");
    if project.last_commit.as_str().is_empty() {
        push_text(&mut s, "no commits");
    } else {
        push_text(&mut s, project.last_commit.as_str());
    }
    s
}

/// The checkouts listed under WORKTREES: the project's worktrees, or the
/// project alone when it has none.
pub open spec fn tree_paths(p: Project) -> Seq<Seq<char>> {
    if p.worktrees@.len() == 0 {
        seq![p.path@]
    } else {
        texts(p.worktrees@)
    }
}

/// The first known checkout among `known[i..]` at `tree`.
pub open spec fn checkout_at(known: Seq<Project>, tree: Seq<char>, i: int) -> Option<int>
    decreases known.len() - i,
{
    if i < 0 || i >= known.len() {
        None
    } else if same_path(known[i].path@, tree) {
        Some(i)
    } else {
        checkout_at(known, tree, i + 1)
    }
}

/// One line of the WORKTREES list.
pub struct TreeRow {
    pub path: String,
    /// `<branch>  ·  <folder name>`, then `  ·  <summary>` when the
    /// checkout has changes.
    pub label: String,
    /// The row of the project itself, shown in bold.
    pub current: bool,
    /// Every row but the main checkout's has a remove button.
    pub removable: bool,
}

/// The label of a WORKTREES row for `tree`, given the known checkout there.
pub open spec fn tree_label_of(known: Seq<Project>, tree: Seq<char>) -> Seq<char> {
    let found = checkout_at(known, tree, 0);
    let branch = match found {
        Some(i) => if known[i].branch@.len() > 0 {
            known[i].branch@
        } else {
            "?"@
        },
        None => "?"@,
    };
    let name = match path_file_name(tree) {
        Some(n) => n,
        None => Seq::empty(),
    };
    let base = branch + "  ·  "@ + name;
    match found {
        Some(i) => if known[i].dirty + known[i].untracked > 0 {
            base + "  ·  "@ + health_of(known[i])
        } else {
            base
        },
        None => base,
    }
}

/// Whether `row` is the WORKTREES row of `p` for its `k`-th tree.
pub open spec fn tree_row_is(p: Project, known: Seq<Project>, row: TreeRow, k: int) -> bool {
    let trees = tree_paths(p);
    &&& row.path@ == trees[k]
    &&& row.label@ == tree_label_of(known, trees[k])
    &&& row.current == same_path(trees[k], p.path@)
    &&& row.removable == !same_path(trees[k], trees[0])
}

/// Whether `rows` are the WORKTREES rows of `p` among `known`.
pub open spec fn tree_rows_of(p: Project, known: Seq<Project>, rows: Seq<TreeRow>) -> bool {
    &&& rows.len() == tree_paths(p).len()
    &&& forall|k: int| 0 <= k < rows.len() ==> #[trigger] tree_row_is(p, known, rows[k], k)
}

pub(crate) fn find_checkout(known: &Vec<Project>, tree: &str) -> (r: Option<usize>)
    ensures
        r is None <==> checkout_at(known@, tree@, 0) is None,
        r matches Some(i) ==> i < known@.len() && checkout_at(known@, tree@, 0) == Some(i as int),
{
    let mut i: usize = 0;
    while i < known.len()
        invariant
            i <= known@.len(),
            checkout_at(known@, tree@, 0) == checkout_at(known@, tree@, i as int),
        decreases known@.len() - i,
    {
        if path_eq(known[i].path.as_str(), tree) {
            return Some(i);
        }
        i = i + 1;
    }
    None
}

fn tree_label(known: &Vec<Project>, tree: &str) -> (r: String)
    ensures
        r@ == tree_label_of(known@, tree@),
{
    let found = find_checkout(known, tree);
    let mut s = match found {
        Some(i) => if known[i].branch.as_str().is_empty() {
            owned("?")
        } else {
            owned(known[i].branch.as_str())
        },
        None => owned("?"),
    };
    push_text(&mut s, "  ·  ");
    match file_name_of(tree) {
        Some(n) => push_text(&mut s, n.as_str()),
        None => {},
    }
    match found {
        Some(i) => {
            if known[i].dirty as u64 + known[i].untracked as u64 > 0 {
                push_text(&mut s, "  ·  ");
                let h = health_text(&known[i]);
                push_text(&mut s, h.as_str());
            }
        },
        None => {},
    }
    s
}

/// The WORKTREES rows of a project (see `tree_rows_of`).
pub fn tree_rows(project: &Project, known: &Vec<Project>) -> (r: Vec<TreeRow>)
    ensures
        tree_rows_of(*project, known@, r@),
{
    let trees: Vec<String> = if project.worktrees.len() == 0 {
        let mut v: Vec<String> = Vec::new();
        v.push(owned(project.path.as_str()));
        v
    } else {
        let mut v: Vec<String> = Vec::new();
        let n = project.worktrees.len();
        for k in 0..n
            invariant
                n == project.worktrees@.len(),
                texts(v@) == texts(project.worktrees@).take(k as int),
        {
            let ghost before = texts(v@);
            v.push(owned(project.worktrees[k].as_str()));
            assert(texts(v@) == before.push(project.worktrees@[k as int]@));
            assert(texts(project.worktrees@).take(k + 1) == texts(project.worktrees@).take(
                k as int,
            ).push(project.worktrees@[k as int]@));
        }
        assert(texts(project.worktrees@).take(n as int) == texts(project.worktrees@));
        v
    };
    assert(texts(trees@) == tree_paths(*project));
    let mut rows: Vec<TreeRow> = Vec::new();
    let n = trees.len();
    let mut k: usize = 0;
    while k < n
        invariant
            n == trees@.len(),
            n > 0,
            k <= n,
            texts(trees@) == tree_paths(*project),
            rows@.len() == k,
            forall|m: int| 0 <= m < k ==> #[trigger] tree_row_is(*project, known@, rows@[m], m),
        decreases n - k,
    {
        let tree = trees[k].as_str();
        assert(tree@ == tree_paths(*project)[k as int]);
        assert(trees@[0]@ == tree_paths(*project)[0]);
        let row = TreeRow {
            path: owned(tree),
            label: tree_label(known, tree),
            current: path_eq(tree, project.path.as_str()),
            removable: !path_eq(tree, trees[0].as_str()),
        };
        assert(tree_row_is(*project, known@, row, k as int));
        rows.push(row);
        k = k + 1;
    }
    rows
}

} // verus!
