//! The project storage page: what it says of the projects under a folder,
//! the review before their build folders go to the Trash, and the guard
//! against cleaning while builds run.

use vstd::prelude::*;

use crate::format::{human_size, size_text};
use crate::lines::{parse_u64, u64_text};
use crate::paths::{file_name_of, path_file_name, path_starts_with, starts_with_path};
use crate::projects::{cache_bytes, cache_total, joined, push_joined, Project};
use crate::settings::{trim, trimmed};
use crate::text::{chars_of, decimal, owned, push_decimal, push_text};

verus! {

/// The positions of the projects under `root`, in order.
pub open spec fn under_root_of(projects: Seq<Project>, root: Seq<char>, r: Seq<usize>) -> bool {
    &&& forall|i: int, j: int| 0 <= i < j < r.len() ==> r[i] < r[j]
    &&& forall|i: int| 0 <= i < r.len() ==> (#[trigger] r[i]) < projects.len()
    &&& forall|k: int|
        0 <= k < projects.len() ==> (r.contains(k as usize) <==> path_starts_with(
            #[trigger] projects[k].path@,
            root,
        ))
}

/// The positions of the projects whose checkout lies under `root`
/// (see `under_root_of`).
pub fn projects_under(projects: &Vec<Project>, root: &str) -> (r: Vec<usize>)
    ensures
        under_root_of(projects@, root@, r@),
{
    let mut out: Vec<usize> = Vec::new();
    let n = projects.len();
    let mut k: usize = 0;
    while k < n
        invariant
            n == projects@.len(),
            k <= n,
            forall|i: int, j: int| 0 <= i < j < out@.len() ==> out@[i] < out@[j],
            forall|i: int| 0 <= i < out@.len() ==> (#[trigger] out@[i]) < k,
            forall|m: int|
                0 <= m < k ==> (out@.contains(m as usize) <==> path_starts_with(
                    #[trigger] projects@[m].path@,
                    root@,
                )),
        decreases n - k,
    {
        let ghost before = out@;
        if starts_with_path(projects[k].path.as_str(), root) {
            out.push(k);
            proof {
                assert forall|m: int| 0 <= m < k implies (#[trigger] out@.contains(m as usize)
                    <==> before.contains(m as usize)) by {
                    if out@.contains(m as usize) {
                        let w = choose|w: int| 0 <= w < out@.len() && out@[w] == m as usize;
                        if w < before.len() {
                            assert(before[w] == m as usize);
                        }
                    }
                    if before.contains(m as usize) {
                        let w = choose|w: int| 0 <= w < before.len() && before[w] == m as usize;
                        assert(out@[w] == m as usize);
                    }
                }
                assert(out@[before.len() as int] == k);
            }
        } else {
            proof {
                if out@.contains(k) {
                    let w = choose|w: int| 0 <= w < out@.len() && out@[w] == k;
                    assert(out@[w] < k);
                }
            }
        }
        k = k + 1;
    }
    out
}

/// The measured build bytes of the first `k` projects.
pub open spec fn build_bytes(projects: Seq<Project>, k: int) -> nat
    decreases k,
{
    if k <= 0 {
        0
    } else {
        build_bytes(projects, k - 1) + cache_total(projects[k - 1])
    }
}

proof fn lemma_build_bytes_grow(projects: Seq<Project>, j: int, k: int)
    requires
        0 <= j <= k <= projects.len(),
    ensures
        build_bytes(projects, j) <= build_bytes(projects, k),
    decreases k - j,
{
    if j < k {
        lemma_build_bytes_grow(projects, j, k - 1);
    }
}

/// Some artifact of some project is not measured yet.
pub open spec fn any_unmeasured(projects: Seq<Project>) -> bool {
    exists|i: int, k: int|
        0 <= i < projects.len() && 0 <= k < projects[i].artifacts@.len()
            && (#[trigger] projects[i].artifacts@[k]).bytes is None
}

/// The page's summary line: the number of projects, then the measured size
/// of their builds and dependencies, or `build sizes below` while some are
/// still unmeasured.
pub open spec fn content_summary_of(projects: Seq<Project>) -> Seq<char> {
    decimal(projects.len()) + " projects · "@ + if any_unmeasured(projects) {
        "build sizes below"@
    } else {
        size_text(build_bytes(projects, projects.len() as int)) + " in builds & dependencies"@
    }
}

/// The page's summary line (see `content_summary_of`).
pub fn content_summary(projects: &Vec<Project>) -> (r: String)
    requires
        build_bytes(projects@, projects@.len() as int) <= u64::MAX,
    ensures
        r@ == content_summary_of(projects@),
{
    let n = projects.len();
    let mut total: u64 = 0;
    let mut unknown = false;
    let mut i: usize = 0;
    while i < n
        invariant
            n == projects@.len(),
            i <= n,
            build_bytes(projects@, n as int) <= u64::MAX,
            total == build_bytes(projects@, i as int),
            unknown == exists|a: int, k: int|
                0 <= a < i && 0 <= k < projects@[a].artifacts@.len()
                    && (#[trigger] projects@[a].artifacts@[k]).bytes is None,
        decreases n - i,
    {
        proof {
            lemma_build_bytes_grow(projects@, i + 1, n as int);
        }
        let p = &projects[i];
        total = total + cache_bytes(p);
        let m = p.artifacts.len();
        let mut k: usize = 0;
        let ghost was = unknown;
        while k < m
            invariant
                m == p.artifacts@.len(),
                k <= m,
                unknown == (was || exists|j: int| 0 <= j < k && (#[trigger] p.artifacts@[j]).bytes is None),
            decreases m - k,
        {
            if p.artifacts[k].bytes.is_none() {
                unknown = true;
            }
            k = k + 1;
        }
        proof {
            if unknown && !was {
                let j = choose|j: int| 0 <= j < m && (#[trigger] p.artifacts@[j]).bytes is None;
                assert(projects@[i as int].artifacts@[j].bytes is None);
            }
            if was {
                let (a, k2) = choose|a: int, k2: int|
                    0 <= a < i && 0 <= k2 < projects@[a].artifacts@.len()
                        && (#[trigger] projects@[a].artifacts@[k2]).bytes is None;
                assert(0 <= a < i + 1 && projects@[a].artifacts@[k2].bytes is None);
            }
        }
        i = i + 1;
    }
    let mut s = String::new();
    push_decimal(&mut s, n as u64);
    push_text(&mut s, " projects · ");
    if unknown {
        push_text(&mut s, "build sizes below");
    } else {
        let h = human_size(total);
        push_text(&mut s, h.as_str());
        push_text(&mut s, " in builds & dependencies");
    }
    s
}

/// The title of a project's entry: its folder name, two spaces, then
/// `Rust `, `JS ` and `Git` for what it uses.
pub open spec fn project_heading_of(p: Project) -> Seq<char> {
    (match path_file_name(p.path@) {
        Some(n) => n,
        None => Seq::empty(),
    }) + "  "@ + (if p.rust {
        "Rust "@
    } else {
        Seq::empty()
    }) + (if p.node {
        "JS "@
    } else {
        Seq::empty()
    }) + (if p.git {
        "Git"@
    } else {
        Seq::empty()
    })
}

/// The title of a project's entry (see `project_heading_of`).
pub fn project_heading(project: &Project) -> (r: String)
    ensures
        r@ == project_heading_of(*project),
{
    let mut s = match file_name_of(project.path.as_str()) {
        Some(n) => n,
        None => String::new(),
    };
    push_text(&mut s, "  ");
    if project.rust {
        push_text(&mut s, "Rust ");
    }
    if project.node {
        push_text(&mut s, "JS ");
    }
    if project.git {
        push_text(&mut s, "Git");
    }
    s
}

/// The size shown for a build folder: its known size, or the text of a
/// measurement still pending.
pub fn known_size_text(known: Option<u64>, pending: &str) -> (r: String)
    ensures
        r@ == match known {
            Some(b) => size_text(b as nat),
            None => pending@,
        },
{
    match known {
        Some(b) => human_size(b),
        None => owned(pending),
    }
}

/// The label of a build folder's check box: its name, then its size.
pub fn artifact_label(path: &str, size: &str) -> (r: String)
    ensures
        r@ == match path_file_name(path@) {
            Some(n) => n,
            None => Seq::empty(),
        } + " · "@ + size@,
{
    let mut s = match file_name_of(path) {
        Some(n) => n,
        None => String::new(),
    };
    push_text(&mut s, " · ");
    push_text(&mut s, size);
    s
}

/// The review shown before cleanup: the folders, one per line, between
/// the question and the warnings.
pub open spec fn review_text_of(paths: Seq<Seq<char>>) -> Seq<char> {
    "Move these folders to your desktop Trash?\n\n"@ + joined(paths, "\n"@)
        + "\n\nRestore them through your desktop Trash if needed. Space is freed only when Trash is emptied. Dependencies/builds will need to be recreated. Cleanup is blocked while build or package processes are active."@
}

/// The review shown before cleanup (see `review_text_of`).
pub fn review_text(paths: &Vec<String>) -> (r: String)
    ensures
        r@ == review_text_of(paths@.map_values(|s: String| s@)),
{
    let mut s = owned("Move these folders to your desktop Trash?\n\n");
    push_joined(&mut s, paths, "\n");
    push_text(
        &mut s,
        "\n\nRestore them through your desktop Trash if needed. Space is freed only when Trash is emptied. Dependencies/builds will need to be recreated. Cleanup is blocked while build or package processes are active.",
    );
    s
}

/// The names of the processes that block cleanup: builds and package
/// managers that may share targets and caches.
pub open spec fn build_process_of(name: Seq<char>) -> bool {
    let t = trimmed(name);
    ||| t == "cargo"@
    ||| t == "rustc"@
    ||| t == "rust-analyzer"@
    ||| t == "npm"@
    ||| t == "bun"@
    ||| t == "node"@
    ||| t == "pnpm"@
    ||| t == "yarn"@
}

fn is_text(a: &Vec<char>, b: &str) -> (r: bool)
    ensures
        r == (a@ == b@),
{
    let bc = chars_of(b);
    crate::text::same_text(a, &bc)
}

/// Whether a process's name (its `comm`, with the line end) blocks
/// cleanup (see `build_process_of`).
pub fn is_build_process(comm: &str) -> (r: bool)
    ensures
        r == build_process_of(comm@),
{
    let t = trim(comm);
    let tc = chars_of(t.as_str());
    is_text(&tc, "cargo") || is_text(&tc, "rustc") || is_text(&tc, "rust-analyzer") || is_text(
        &tc,
        "npm",
    ) || is_text(&tc, "bun") || is_text(&tc, "node") || is_text(&tc, "pnpm") || is_text(
        &tc,
        "yarn",
    )
}

/// Whether an entry of the process table names a process: its name reads
/// as a `u32`.
pub fn is_process_entry(name: &str) -> (r: bool)
    ensures
        r == (u64_text(name@) matches Some(v) && v <= u32::MAX),
{
    let c = chars_of(name);
    match parse_u64(&c) {
        Some(v) => v <= 4294967295u64,
        None => false,
    }
}

/// The report when a running build stops the cleanup.
pub fn blocked_by_build(done: u64) -> (r: String)
    ensures
        r@ == "Moved "@ + decimal(done as nat)
            + " folders; cleanup blocked by an active build/package process."@,
{
    let mut s = owned("Moved ");
    push_decimal(&mut s, done);
    push_text(&mut s, " folders; cleanup blocked by an active build/package process.");
    s
}

/// The report when a reviewed folder changed: it is no longer a folder
/// (`moved`) or its path now resolves elsewhere.
pub fn changed_since_review(path: &str, moved: bool) -> (r: String)
    ensures
        r@ == (if moved {
            "Folder changed since review: "@
        } else {
            "Path changed since review: "@
        }) + path@,
{
    let mut s = if moved {
        owned("Folder changed since review: ")
    } else {
        owned("Path changed since review: ")
    };
    push_text(&mut s, path);
    s
}

/// The report when a folder holds files that Git tracks.
pub fn tracked_refusal(path: &str) -> (r: String)
    ensures
        r@ == "Cleanup blocked: "@ + path@ + " contains Git-tracked files"@,
{
    let mut s = owned("Cleanup blocked: ");
    push_text(&mut s, path);
    push_text(&mut s, " contains Git-tracked files");
    s
}

/// The report when moving a folder to the Trash fails.
pub fn trash_failed(done: u64, path: &str, error: &str) -> (r: String)
    ensures
        r@ == "Moved "@ + decimal(done as nat) + "; "@ + path@ + ": "@ + error@,
{
    let mut s = owned("Moved ");
    push_decimal(&mut s, done);
    push_text(&mut s, "; ");
    push_text(&mut s, path);
    push_text(&mut s, ": ");
    push_text(&mut s, error);
    s
}

/// The report of a finished cleanup.
pub fn cleanup_done(done: u64) -> (r: String)
    ensures
        r@ == "Moved "@ + decimal(done as nat)
            + " folders to your desktop Trash. Empty Trash separately to reclaim the space."@,
{
    let mut s = owned("Moved ");
    push_decimal(&mut s, done);
    push_text(
        &mut s,
        " folders to your desktop Trash. Empty Trash separately to reclaim the space.",
    );
    s
}

} // verus!
