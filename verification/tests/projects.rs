use qfind::projects::{
    artifacts_text, branch_text, cache_bytes, cache_text, changes_text, health_text,
    last_commit_text, marks_dirty, parent_text_in, project_order, project_tooltip, status_pill,
    toolchain_text, Artifact, Project, ProjectColumn,
};

fn project() -> Project {
    Project {
        path: "/home/u/src/app".into(),
        branch: "main".into(),
        target: "origin/main".into(),
        ahead: 0,
        behind: 0,
        conflicted: 0,
        dirty: 0,
        untracked: 0,
        artifacts: vec![],
        rust: false,
        node: false,
        git: false,
        web_tool: String::new(),
        worktrees: vec![],
        last_commit: String::new(),
        repository: "App".into(),
        modified: 0,
    }
}

#[test]
fn pill_shows_branch_upstream_and_counts() {
    let mut p = project();
    assert_eq!(status_pill(&p), "main → origin/main");
    p.ahead = 2;
    assert_eq!(status_pill(&p), "main → origin/main ⇡2 ⇣0");
    p.target = String::new();
    p.behind = 3;
    assert_eq!(status_pill(&p), "main ⇡2 ⇣3");
    p.branch = String::new();
    assert_eq!(branch_text(&p), "No branch");
}

#[test]
fn health_summaries() {
    let mut p = project();
    assert_eq!(health_text(&p), "clean");
    p.untracked = 4;
    assert_eq!(health_text(&p), "4 untracked");
    p.dirty = 2;
    assert_eq!(health_text(&p), "●2 · 4 untracked");
    p.conflicted = 1;
    assert_eq!(health_text(&p), "✖ 1 conflicted · 2 dirty");
}

#[test]
fn changes_column() {
    let mut p = project();
    assert_eq!(changes_text(&p), "Clean");
    p.dirty = 2;
    p.untracked = 3;
    assert_eq!(changes_text(&p), "5 changed");
    assert!(marks_dirty(&p));
    p.conflicted = 7;
    assert_eq!(changes_text(&p), "Conflicts: 7");
    p.dirty = 0;
    p.conflicted = 0;
    assert!(!marks_dirty(&p));
}

#[test]
fn cache_sizes() {
    let mut p = project();
    assert_eq!(cache_text(&p), "—");
    p.artifacts = vec![
        Artifact { path: "/a/target".into(), bytes: None },
        Artifact { path: "/a/node_modules".into(), bytes: None },
    ];
    assert_eq!(cache_bytes(&p), 0);
    assert_eq!(cache_text(&p), "2 dirs");
    p.artifacts[0].bytes = Some(1024);
    p.artifacts[1].bytes = Some(512);
    assert_eq!(cache_bytes(&p), 1536);
    assert_eq!(cache_text(&p), "1.5 KB");
    assert_eq!(artifacts_text(&p), "target · node_modules");
    p.artifacts.clear();
    assert_eq!(artifacts_text(&p), "No local artifacts");
}

#[test]
fn toolchains() {
    let mut p = project();
    assert_eq!(toolchain_text(&p), "local");
    p.rust = true;
    p.node = true;
    assert_eq!(toolchain_text(&p), "Rust · JS");
    p.web_tool = "pnpm".into();
    p.git = true;
    assert_eq!(toolchain_text(&p), "Rust · pnpm · Git");
}

#[test]
fn parent_texts() {
    assert_eq!(parent_text_in("/home/u/src/app", "/home/u"), "~/src");
    assert_eq!(parent_text_in("/home/u/a/b/c/app", "/home/u"), "…/b/c");
    assert_eq!(parent_text_in("/mnt/x/app", "/home/u"), "/mnt/x");
    assert_eq!(parent_text_in("/mnt/Windows11/DEV/Repos/.worktrees/app", "/home/u"), "…/Repos/.worktrees");
    assert_eq!(parent_text_in("/", "/home/u"), "/");
}

#[test]
fn commit_and_tooltip() {
    let mut p = project();
    assert_eq!(last_commit_text(&p), "—");
    p.last_commit = "fix: things".into();
    assert_eq!(last_commit_text(&p), "fix: things");
    assert_eq!(project_tooltip(&p), "/home/u/src/app\nmain → origin/main\nclean");
}

#[test]
fn project_columns_order() {
    let a = project();
    let mut b = project();
    b.path = "/home/u/src/bpp".into();
    assert_eq!(project_order(ProjectColumn::Modified, &a, &b, "a", "b", None, None), -1);
    b.modified = -1;
    assert_eq!(project_order(ProjectColumn::Modified, &a, &b, "a", "b", None, None), 1);
    assert_eq!(project_order(ProjectColumn::IndexedSize, &a, &b, "a", "b", None, Some(0)), -1);
    assert_eq!(project_order(ProjectColumn::IndexedSize, &a, &b, "a", "b", Some(5), Some(3)), 1);
    assert_eq!(project_order(ProjectColumn::Project, &a, &b, "Beta", "alpha", None, None), 1);
    assert_eq!(project_order(ProjectColumn::Location, &a, &a, "x", "x", None, None), 0);
    let mut c = project();
    c.dirty = 1;
    assert_eq!(project_order(ProjectColumn::Changes, &a, &c, "a", "c", None, None), -1);
    c.repository = "apple".into();
    assert_eq!(project_order(ProjectColumn::Repository, &a, &c, "a", "c", None, None), -1);
}
