//! The project workspace: what its table shows of each repository, and
//! how its columns order projects.

use vstd::prelude::*;

use crate::format::{human_size, size_text};
use crate::lines::{find_last, last_of};
use crate::paths::{
    file_name_of,
    lowercase,
    parent_of,
    path_file_name,
    path_parent,
    path_strip_prefix,
    strip_prefix_of,
    to_lowercase,
};
use crate::text::{
    chars_of,
    compare_text,
    decimal,
    owned,
    push_decimal,
    push_text,
    string_from,
    text_order,
    text_order_total,
};

verus! {

/// A build or cache directory of a project, with its size once measured.
pub struct Artifact {
    pub path: String,
    pub bytes: Option<u64>,
}

/// What the workspace knows of one repository.
pub struct Project {
    pub path: String,
    pub branch: String,
    /// The upstream branch, empty when there is none.
    pub target: String,
    pub ahead: u32,
    pub behind: u32,
    pub conflicted: u32,
    pub dirty: u32,
    pub untracked: u32,
    pub artifacts: Vec<Artifact>,
    pub rust: bool,
    pub node: bool,
    pub git: bool,
    /// The JavaScript build tool, empty when unknown.
    pub web_tool: String,
    /// The other checkouts of the repository (the first is the main one).
    pub worktrees: Vec<String>,
    pub last_commit: String,
    pub repository: String,
    /// Unix seconds, `0` when unknown.
    pub modified: i64,
}

/// The branch pill: the branch, `" → "` and its upstream when both are
/// known, then `" ⇡ahead ⇣behind"` when either count is not zero.
pub open spec fn pill_of(p: Project) -> Seq<char> {
    let base = if p.branch@.len() > 0 && p.target@.len() > 0 {
        p.branch@ + " → "@ + p.target@
    } else {
        p.branch@
    };
    if p.ahead > 0 || p.behind > 0 {
        base + " ⇡"@ + decimal(p.ahead as nat) + " ⇣"@ + decimal(p.behind as nat)
    } else {
        base
    }
}

/// The branch pill of a project (see `pill_of`).
pub fn status_pill(project: &Project) -> (r: String)
    ensures
        r@ == pill_of(*project),
{
    let mut pill = owned(project.branch.as_str());
    if !project.branch.as_str().is_empty() && !project.target.as_str().is_empty() {
        push_text(&mut pill, " → ");
        push_text(&mut pill, project.target.as_str());
    }
    if project.ahead > 0 || project.behind > 0 {
        push_text(&mut pill, " ⇡");
        push_decimal(&mut pill, project.ahead as u64);
        push_text(&mut pill, " ⇣");
        push_decimal(&mut pill, project.behind as u64);
    }
    pill
}

/// The working-tree summary: conflicts first, then clean, untracked only,
/// or changed and untracked counts.
pub open spec fn health_of(p: Project) -> Seq<char> {
    if p.conflicted > 0 {
        "✖ "@ + decimal(p.conflicted as nat) + " conflicted · "@ + decimal(p.dirty as nat) + " dirty"@
    } else if p.dirty == 0 && p.untracked == 0 {
        "clean"@
    } else if p.untracked > 0 && p.dirty == 0 {
        decimal(p.untracked as nat) + " untracked"@
    } else {
        "●"@ + decimal(p.dirty as nat) + " · "@ + decimal(p.untracked as nat) + " untracked"@
    }
}

/// The working-tree summary of a project (see `health_of`).
pub fn health_text(project: &Project) -> (r: String)
    ensures
        r@ == health_of(*project),
{
    let mut s = String::new();
    if project.conflicted > 0 {
        push_text(&mut s, "✖ ");
        push_decimal(&mut s, project.conflicted as u64);
        push_text(&mut s, " conflicted · ");
        push_decimal(&mut s, project.dirty as u64);
        push_text(&mut s, " dirty");
    } else if project.dirty == 0 && project.untracked == 0 {
        push_text(&mut s, "clean");
    } else if project.untracked > 0 && project.dirty == 0 {
        push_decimal(&mut s, project.untracked as u64);
        push_text(&mut s, " untracked");
    } else {
        push_text(&mut s, "●");
        push_decimal(&mut s, project.dirty as u64);
        push_text(&mut s, " · ");
        push_decimal(&mut s, project.untracked as u64);
        push_text(&mut s, " untracked");
    }
    s
}

/// The measured bytes of the first `k` artifacts.
pub open spec fn measured_bytes(artifacts: Seq<Artifact>, k: int) -> nat
    decreases k,
{
    if k <= 0 {
        0
    } else {
        measured_bytes(artifacts, k - 1) + match artifacts[k - 1].bytes {
            Some(b) => b as nat,
            None => 0,
        }
    }
}

/// The measured size of all of a project's artifacts.
pub open spec fn cache_total(p: Project) -> nat {
    measured_bytes(p.artifacts@, p.artifacts@.len() as int)
}

proof fn lemma_measured_grows(artifacts: Seq<Artifact>, j: int, k: int)
    requires
        0 <= j <= k <= artifacts.len(),
    ensures
        measured_bytes(artifacts, j) <= measured_bytes(artifacts, k),
    decreases k - j,
{
    if j < k {
        lemma_measured_grows(artifacts, j, k - 1);
    }
}

/// The measured size of a project's artifacts; unmeasured ones count
/// nothing.
pub fn cache_bytes(project: &Project) -> (r: u64)
    requires
        cache_total(*project) <= u64::MAX,
    ensures
        r == cache_total(*project),
{
    let n = project.artifacts.len();
    let mut total: u64 = 0;
    for k in 0..n
        invariant
            n == project.artifacts@.len(),
            total == measured_bytes(project.artifacts@, k as int),
            cache_total(*project) <= u64::MAX,
    {
        proof {
            lemma_measured_grows(project.artifacts@, k + 1, n as int);
        }
        match project.artifacts[k].bytes {
            Some(b) => {
                total = total + b;
            },
            None => {},
        }
    }
    total
}

/// Some artifact of the project is not measured yet.
pub open spec fn has_unmeasured(p: Project) -> bool {
    exists|k: int| 0 <= k < p.artifacts@.len() && p.artifacts@[k].bytes is None
}

/// The Caches column: a dash without artifacts, the number of directories
/// while nothing is measured and some are pending, else the measured size.
pub open spec fn cache_text_of(p: Project) -> Seq<char> {
    if p.artifacts@.len() == 0 {
        "—"@
    } else if cache_total(p) == 0 && has_unmeasured(p) {
        decimal(p.artifacts@.len()) + " dirs"@
    } else {
        size_text(cache_total(p))
    }
}

/// The Caches column of a project (see `cache_text_of`).
pub fn cache_text(project: &Project) -> (r: String)
    requires
        cache_total(*project) <= u64::MAX,
    ensures
        r@ == cache_text_of(*project),
{
    let n = project.artifacts.len();
    if n == 0 {
        return owned("—");
    }
    let bytes = cache_bytes(project);
    let mut pending = false;
    for k in 0..n
        invariant
            n == project.artifacts@.len(),
            pending == exists|j: int| 0 <= j < k && project.artifacts@[j].bytes is None,
    {
        if project.artifacts[k].bytes.is_none() {
            pending = true;
        }
    }
    if bytes == 0 && pending {
        let mut s = String::new();
        push_decimal(&mut s, n as u64);
        push_text(&mut s, " dirs");
        return s;
    }
    human_size(bytes)
}

/// The toolchains of a project, joined by `" · "`: Rust, the web tool (or
/// JS), Git; `"local"` when none applies.
pub open spec fn toolchain_of(p: Project) -> Seq<char> {
    let kinds = (if p.rust {
        seq!["Rust"@]
    } else {
        seq![]
    }) + (if p.node {
        seq![
            if p.web_tool@.len() == 0 {
                "JS"@
            } else {
                p.web_tool@
            },
        ]
    } else {
        seq![]
    }) + (if p.git {
        seq!["Git"@]
    } else {
        seq![]
    });
    if kinds.len() == 0 {
        "local"@
    } else {
        joined(kinds, " · "@)
    }
}

/// `parts` joined with `sep` between them.
pub open spec fn joined(parts: Seq<Seq<char>>, sep: Seq<char>) -> Seq<char>
    decreases parts.len(),
{
    if parts.len() == 0 {
        Seq::empty()
    } else if parts.len() == 1 {
        parts[0]
    } else {
        joined(parts.drop_last(), sep) + sep + parts.last()
    }
}

/// Appends `parts` joined with `sep`.
pub fn push_joined(s: &mut String, parts: &Vec<String>, sep: &str)
    ensures
        final(s)@ == old(s)@ + joined(parts@.map_values(|p: String| p@), sep@),
{
    let ghost views = parts@.map_values(|p: String| p@);
    let ghost start = s@;
    let n = parts.len();
    for k in 0..n
        invariant
            n == parts@.len(),
            views == parts@.map_values(|p: String| p@),
            s@ == start + joined(views.take(k as int), sep@),
    {
        if k > 0 {
            push_text(s, sep);
        }
        push_text(s, parts[k].as_str());
        proof {
            assert(views.take(k + 1).drop_last() == views.take(k as int));
            assert(views.take(k + 1).last() == parts@[k as int]@);
            if k == 0 {
                assert(views.take(0) == Seq::<Seq<char>>::empty());
            }
        }
    }
    assert(views.take(n as int) == views);
}

/// The Toolchain column of a project (see `toolchain_of`).
pub fn toolchain_text(project: &Project) -> (r: String)
    ensures
        r@ == toolchain_of(*project),
{
    let mut kinds: Vec<String> = Vec::new();
    if project.rust {
        kinds.push(owned("Rust"));
    }
    if project.node {
        if project.web_tool.as_str().is_empty() {
            kinds.push(owned("JS"));
        } else {
            kinds.push(owned(project.web_tool.as_str()));
        }
    }
    if project.git {
        kinds.push(owned("Git"));
    }
    let mut s = String::new();
    proof {
        let views = kinds@.map_values(|p: String| p@);
        let expected = (if project.rust {
            seq!["Rust"@]
        } else {
            seq![]
        }) + (if project.node {
            seq![
                if project.web_tool@.len() == 0 {
                    "JS"@
                } else {
                    project.web_tool@
                },
            ]
        } else {
            seq![]
        }) + (if project.git {
            seq!["Git"@]
        } else {
            seq![]
        });
        assert(views == expected);
    }
    if kinds.len() == 0 {
        return owned("local");
    }
    push_joined(&mut s, &kinds, " · ");
    s
}

/// The shortened location text: when the path has more than three
/// `/`-separated parts, `"…/"` and its last two parts.
pub open spec fn shortened(text: Seq<char>) -> Seq<char> {
    match last_of(text, text.len() as int, '/') {
        Some(p1) => match last_of(text, p1, '/') {
            Some(p2) => match last_of(text, p2, '/') {
                Some(_) => "…/"@ + text.subrange(p2 + 1, text.len() as int),
                None => text,
            },
            None => text,
        },
        None => text,
    }
}

/// The folder a project lives in, relative to the home folder as `~/…`
/// when it lies inside it, shortened (see `shortened`).
pub open spec fn parent_text_of(path: Seq<char>, home: Seq<char>) -> Seq<char> {
    let parent = match path_parent(path) {
        Some(p) => p,
        None => path,
    };
    let text = match path_strip_prefix(parent, home) {
        Some(rest) => "~/"@ + rest,
        None => parent,
    };
    shortened(text)
}

/// The folder a project lives in, given the home folder (see
/// `parent_text_of`).
pub fn parent_text_in(path: &str, home: &str) -> (r: String)
    ensures
        r@ == parent_text_of(path@, home@),
{
    let parent = match parent_of(path) {
        Some(p) => p,
        None => owned(path),
    };
    let text = match strip_prefix_of(parent.as_str(), home) {
        Some(rest) => {
            let mut t = owned("~/");
            push_text(&mut t, rest.as_str());
            t
        },
        None => parent,
    };
    let chars = chars_of(text.as_str());
    let n = chars.len();
    let p1 = find_last(&chars, n, '/');
    if let Some(a) = p1 {
        let p2 = find_last(&chars, a, '/');
        if let Some(b) = p2 {
            let p3 = find_last(&chars, b, '/');
            if p3.is_some() {
                let mut tail: Vec<char> = Vec::new();
                let mut k = b + 1;
                while k < n
                    invariant
                        b + 1 <= k <= n,
                        n == chars@.len(),
                        tail@ == chars@.subrange(b + 1, k as int),
                    decreases n - k,
                {
                    tail.push(chars[k]);
                    k = k + 1;
                }
                let mut r = owned("…/");
                let rest = string_from(&tail);
                push_text(&mut r, rest.as_str());
                return r;
            }
        }
    }
    text
}

/// The home folder, if the environment names one.
///
/// Calls `dirs::home_dir`; nothing is claimed of the result, which comes
/// from the environment and the user database.
#[verifier::external_body]
fn home_dir() -> (r: Option<String>) {
    dirs::home_dir().map(|p| p.to_string_lossy().into_owned())
}

/// The folder a project lives in, relative to the user's home folder (see
/// `parent_text_of`; an unknown home folder counts as empty).
pub fn parent_text(project: &Project) -> (r: String)
    ensures
        exists|home: Seq<char>| r@ == parent_text_of(project.path@, home),
{
    let home = match home_dir() {
        Some(h) => h,
        None => String::new(),
    };
    parent_text_in(project.path.as_str(), home.as_str())
}

/// The Changes column: conflicts, else the changed count, else `"Clean"`.
pub open spec fn changes_of(p: Project) -> Seq<char> {
    if p.conflicted > 0 {
        "Conflicts: "@ + decimal(p.conflicted as nat)
    } else if p.dirty + p.untracked > 0 {
        decimal((p.dirty + p.untracked) as nat) + " changed"@
    } else {
        "Clean"@
    }
}

/// The Changes column of a project (see `changes_of`).
pub fn changes_text(project: &Project) -> (r: String)
    ensures
        r@ == changes_of(*project),
{
    let mut s = String::new();
    if project.conflicted > 0 {
        push_text(&mut s, "Conflicts: ");
        push_decimal(&mut s, project.conflicted as u64);
    } else if project.dirty as u64 + project.untracked as u64 > 0 {
        push_decimal(&mut s, project.dirty as u64 + project.untracked as u64);
        push_text(&mut s, " changed");
    } else {
        push_text(&mut s, "Clean");
    }
    s
}

/// The Branch column: the pill, or `"No branch"`.
pub fn branch_text(project: &Project) -> (r: String)
    ensures
        project.branch@.len() == 0 ==> r@ == "No branch"@,
        project.branch@.len() > 0 ==> r@ == pill_of(*project),
{
    if project.branch.as_str().is_empty() {
        owned("No branch")
    } else {
        status_pill(project)
    }
}

/// The Last commit column: the summary, or a dash.
pub fn last_commit_text(project: &Project) -> (r: String)
    ensures
        project.last_commit@.len() == 0 ==> r@ == "—"@,
        project.last_commit@.len() > 0 ==> r@ == project.last_commit@,
{
    if project.last_commit.as_str().is_empty() {
        owned("—")
    } else {
        owned(project.last_commit.as_str())
    }
}

/// The tooltip of a project cell: its path, pill and health, one per line.
pub fn project_tooltip(project: &Project) -> (r: String)
    ensures
        r@ == project.path@ + "\n"@ + pill_of(*project) + "\n"@ + health_of(*project),
{
    let mut s = owned(project.path.as_str());
    push_text(&mut s, "\n");
    let pill = status_pill(project);
    push_text(&mut s, pill.as_str());
    push_text(&mut s, "\n");
    let health = health_text(project);
    push_text(&mut s, health.as_str());
    s
}

/// Whether the Changes cell is marked dirty.
pub fn marks_dirty(project: &Project) -> (r: bool)
    ensures
        r == (project.conflicted > 0 || project.dirty > 0),
{
    project.conflicted > 0 || project.dirty > 0
}

/// The names of the first `k` artifacts (empty where a path has no name).
pub open spec fn artifact_names(artifacts: Seq<Artifact>) -> Seq<Seq<char>> {
    artifacts.map_values(
        |a: Artifact|
            match path_file_name(a.path@) {
                Some(n) => n,
                None => Seq::empty(),
            },
    )
}

/// The builds column: the artifact folder names joined by `" · "`, or
/// `"No local artifacts"`.
pub fn artifacts_text(project: &Project) -> (r: String)
    ensures
        project.artifacts@.len() == 0 ==> r@ == "No local artifacts"@,
        project.artifacts@.len() > 0 ==> r@ == joined(artifact_names(project.artifacts@), " · "@),
{
    let n = project.artifacts.len();
    if n == 0 {
        return owned("No local artifacts");
    }
    let mut names: Vec<String> = Vec::new();
    for k in 0..n
        invariant
            n == project.artifacts@.len(),
            names@.map_values(|p: String| p@) == artifact_names(project.artifacts@).take(k as int),
    {
        let name = match file_name_of(project.artifacts[k].path.as_str()) {
            Some(x) => x,
            None => String::new(),
        };
        let ghost before = names@.map_values(|p: String| p@);
        names.push(name);
        proof {
            assert(names@.map_values(|p: String| p@) == before.push(name@));
            assert(artifact_names(project.artifacts@).take(k + 1) == artifact_names(
                project.artifacts@,
            ).take(k as int).push(artifact_names(project.artifacts@)[k as int]));
        }
    }
    assert(artifact_names(project.artifacts@).take(n as int) == artifact_names(project.artifacts@));
    let mut s = String::new();
    push_joined(&mut s, &names, " · ");
    s
}

/// The columns of the project table.
#[derive(Clone, Copy, PartialEq, Eq, Structural, Debug)]
pub enum ProjectColumn {
    Project,
    Branch,
    Changes,
    Caches,
    Worktrees,
    LastCommit,
    Toolchain,
    Repository,
    Location,
    Modified,
    IndexedSize,
    Builds,
}

/// Three-way comparison of two integers.
pub open spec fn compare_ints(a: int, b: int) -> int {
    if a < b {
        -1
    } else if a > b {
        1
    } else {
        0
    }
}

/// `first`, or `second` where `first` ties.
pub open spec fn then(first: int, second: int) -> int {
    if first != 0 {
        first
    } else {
        second
    }
}

/// Three-way comparison of optional sizes: unknown before known.
pub open spec fn compare_sizes(a: Option<u64>, b: Option<u64>) -> int {
    match (a, b) {
        (None, None) => 0,
        (None, Some(_)) => -1,
        (Some(_), None) => 1,
        (Some(x), Some(y)) => compare_ints(x as int, y as int),
    }
}

/// How a column orders two projects, before the tie-break by path.
/// `name_a`, `name_b` are the rows' names; `size_a`, `size_b` their known
/// sizes.
pub open spec fn column_order(
    column: ProjectColumn,
    a: Project,
    b: Project,
    name_a: Seq<char>,
    name_b: Seq<char>,
    size_a: Option<u64>,
    size_b: Option<u64>,
) -> int {
    match column {
        ProjectColumn::IndexedSize => compare_sizes(size_a, size_b),
        ProjectColumn::Modified => compare_ints(a.modified as int, b.modified as int),
        ProjectColumn::Toolchain => text_order(toolchain_of(a), toolchain_of(b)),
        ProjectColumn::Branch => then(
            text_order(a.branch@, b.branch@),
            then(compare_ints(a.ahead as int, b.ahead as int), compare_ints(a.behind as int, b.behind as int)),
        ),
        ProjectColumn::Changes => then(
            compare_ints(a.conflicted as int, b.conflicted as int),
            then(compare_ints(a.dirty as int, b.dirty as int), compare_ints(a.untracked as int, b.untracked as int)),
        ),
        ProjectColumn::Caches => compare_ints(cache_total(a) as int, cache_total(b) as int),
        ProjectColumn::Worktrees => compare_ints(a.worktrees@.len() as int, b.worktrees@.len() as int),
        ProjectColumn::LastCommit => text_order(a.last_commit@, b.last_commit@),
        ProjectColumn::Repository => text_order(lowercase(a.repository@), lowercase(b.repository@)),
        ProjectColumn::Location => text_order(a.path@, b.path@),
        ProjectColumn::Builds => compare_ints(a.artifacts@.len() as int, b.artifacts@.len() as int),
        ProjectColumn::Project => text_order(lowercase(name_a), lowercase(name_b)),
    }
}

fn compare_u64(a: u64, b: u64) -> (r: i8)
    ensures
        r as int == compare_ints(a as int, b as int),
{
    if a < b {
        -1
    } else if a > b {
        1
    } else {
        0
    }
}

fn compare_i64(a: i64, b: i64) -> (r: i8)
    ensures
        r as int == compare_ints(a as int, b as int),
{
    if a < b {
        -1
    } else if a > b {
        1
    } else {
        0
    }
}

fn compare_strings(a: &str, b: &str) -> (r: i8)
    ensures
        r as int == text_order(a@, b@),
{
    let x = chars_of(a);
    let y = chars_of(b);
    compare_text(&x, &y)
}

/// How a project column orders two rows: by the column (see
/// `column_order`), ties broken by the rows' paths.
pub fn project_order(
    column: ProjectColumn,
    a: &Project,
    b: &Project,
    name_a: &str,
    name_b: &str,
    size_a: Option<u64>,
    size_b: Option<u64>,
) -> (r: i8)
    requires
        cache_total(*a) <= u64::MAX,
        cache_total(*b) <= u64::MAX,
    ensures
        r as int == then(
            column_order(column, *a, *b, name_a@, name_b@, size_a, size_b),
            text_order(a.path@, b.path@),
        ),
{
    let first: i8 = match column {
        ProjectColumn::IndexedSize => match (size_a, size_b) {
            (None, None) => 0,
            (None, Some(_)) => -1,
            (Some(_), None) => 1,
            (Some(x), Some(y)) => compare_u64(x, y),
        },
        ProjectColumn::Modified => compare_i64(a.modified, b.modified),
        ProjectColumn::Toolchain => {
            let x = toolchain_text(a);
            let y = toolchain_text(b);
            compare_strings(x.as_str(), y.as_str())
        },
        ProjectColumn::Branch => {
            let c = compare_strings(a.branch.as_str(), b.branch.as_str());
            if c != 0 {
                c
            } else {
                let d = compare_u64(a.ahead as u64, b.ahead as u64);
                if d != 0 {
                    d
                } else {
                    compare_u64(a.behind as u64, b.behind as u64)
                }
            }
        },
        ProjectColumn::Changes => {
            let c = compare_u64(a.conflicted as u64, b.conflicted as u64);
            if c != 0 {
                c
            } else {
                let d = compare_u64(a.dirty as u64, b.dirty as u64);
                if d != 0 {
                    d
                } else {
                    compare_u64(a.untracked as u64, b.untracked as u64)
                }
            }
        },
        ProjectColumn::Caches => compare_u64(cache_bytes(a), cache_bytes(b)),
        ProjectColumn::Worktrees => compare_u64(a.worktrees.len() as u64, b.worktrees.len() as u64),
        ProjectColumn::LastCommit => compare_strings(a.last_commit.as_str(), b.last_commit.as_str()),
        ProjectColumn::Repository => {
            let x = to_lowercase(a.repository.as_str());
            let y = to_lowercase(b.repository.as_str());
            compare_strings(x.as_str(), y.as_str())
        },
        ProjectColumn::Location => compare_strings(a.path.as_str(), b.path.as_str()),
        ProjectColumn::Builds => compare_u64(a.artifacts.len() as u64, b.artifacts.len() as u64),
        ProjectColumn::Project => {
            let x = to_lowercase(name_a);
            let y = to_lowercase(name_b);
            compare_strings(x.as_str(), y.as_str())
        },
    };
    if first != 0 {
        first
    } else {
        compare_strings(a.path.as_str(), b.path.as_str())
    }
}

/// The project sorter is antisymmetric: swapping two rows flips the sign
/// of every column's comparison, tie-break included, so it is a consistent
/// comparator.
pub proof fn project_order_antisymmetric(
    column: ProjectColumn,
    a: Project,
    b: Project,
    name_a: Seq<char>,
    name_b: Seq<char>,
    size_a: Option<u64>,
    size_b: Option<u64>,
)
    ensures
        then(column_order(column, a, b, name_a, name_b, size_a, size_b), text_order(a.path@, b.path@))
            == -then(
            column_order(column, b, a, name_b, name_a, size_b, size_a),
            text_order(b.path@, a.path@),
        ),
{
    text_order_total(a.path@, b.path@, b.path@);
    text_order_total(toolchain_of(a), toolchain_of(b), toolchain_of(b));
    text_order_total(a.branch@, b.branch@, b.branch@);
    text_order_total(a.last_commit@, b.last_commit@, b.last_commit@);
    text_order_total(lowercase(a.repository@), lowercase(b.repository@), lowercase(b.repository@));
    text_order_total(lowercase(name_a), lowercase(name_b), lowercase(name_b));
}

/// The Worktrees column: the number of checkouts, at least one.
pub fn worktrees_text(project: &Project) -> (r: String)
    ensures
        r@ == decimal(
            if project.worktrees@.len() > 1 {
                project.worktrees@.len()
            } else {
                1
            },
        ),
{
    let n = project.worktrees.len();
    let shown = if n > 1 {
        n
    } else {
        1
    };
    crate::text::decimal_text(shown as u64)
}

} // verus!
