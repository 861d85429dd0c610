use qfind::checkouts::sort_paths;
use qfind::checkouts::checkout_choices;
use qfind::projects::Project;
use qfind::workspace::{empty_texts, list_status, project_listing, project_shown};

fn project(path: &str, branch: &str, repository: &str) -> Project {
    Project {
        path: path.into(),
        branch: branch.into(),
        target: String::new(),
        ahead: 0,
        behind: 0,
        conflicted: 0,
        dirty: 0,
        untracked: 0,
        artifacts: vec![],
        rust: false,
        node: false,
        git: true,
        web_tool: String::new(),
        worktrees: vec![],
        last_commit: String::new(),
        repository: repository.into(),
        modified: 0,
    }
}

fn sample() -> Vec<Project> {
    let mut feature = project("/src/x/feature-repo", "dev", "");
    feature.dirty = 2;
    vec![
        feature,
        project("/src/main-repo", "main", ""),
        project("/home/runner/actions-runners/_work/r", "main", ""),
        project("/src/main-repo/", "main", ""),
        project("/a", "master", ""),
    ]
}

#[test]
fn search_looks_in_every_field() {
    let p = project("/src/Tool", "Feature", "Org/Tool");
    assert!(project_shown(&p, "TOOL"));
    assert!(project_shown(&p, "feature"));
    assert!(project_shown(&p, "git"));
    assert!(!project_shown(&p, "rust"));
    assert!(project_shown(&p, ""));
}

#[test]
fn listing_ranks_and_drops_repeated_paths() {
    let all = sample();
    assert_eq!(project_listing(&all, ""), vec![4, 1, 0, 2]);
    assert_eq!(project_listing(&all, "DEV"), vec![0]);
    assert!(project_listing(&all, "nothing-like-this").is_empty());
}

#[test]
fn listing_status_line() {
    let mut all = sample();
    all[2].conflicted = 1;
    all[1].artifacts = vec![qfind::projects::Artifact { path: "/src/main-repo/target".into(), bytes: None }];
    let items = project_listing(&all, "");
    assert_eq!(list_status(&all, &items), "4 projects · 2 with changes · 1 conflicts · 1 caches");
    assert_eq!(
        empty_texts(false),
        ("Your next project starts here", "Refresh to discover repositories in your index.")
    );
    assert_eq!(
        empty_texts(true),
        ("No matching projects", "Try another project name, branch, or toolchain.")
    );
}

#[test]
fn picker_groups_a_repository() {
    let mut feature = project("/r/app-f", "f", "me/app");
    feature.worktrees = vec!["/r/app".into(), "/r/wt".into(), "/r/none".into()];
    let all = vec![
        project("/r/app", "main", "Me/App"),
        feature,
        project("/other", "x", ""),
        project("/r/wt", "w", ""),
    ];
    let c = checkout_choices(&all, 1, None);
    assert_eq!(c.items, vec![0, 1, 3]);
    assert_eq!(c.labels[0], "main · clean · /r/app");
    assert_eq!(c.position, 1);
    let again = checkout_choices(&all, 1, Some("/r/wt"));
    assert_eq!(again.position, 2);
    let alone = checkout_choices(&all, 2, None);
    assert_eq!(alone.items, vec![2]);
    assert_eq!(alone.position, 0);
}

#[test]
fn picker_orders_by_components() {
    let all = vec![
        project("/s/a-c", "one", "repo"),
        project("/s/a/b", "two", "repo"),
        project("/s/a/b/", "three", "REPO"),
    ];
    let c = checkout_choices(&all, 0, None);
    assert_eq!(c.items, vec![1, 0]);
    assert_eq!(c.position, 1);
}

#[test]
fn paths_sort_by_components() {
    let sorted = sort_paths(vec!["/s/b".into(), "/s/a-c".into(), "/s/a/b".into(), "/s/a".into()]);
    assert_eq!(sorted, vec!["/s/a", "/s/a/b", "/s/a-c", "/s/b"]);
}
