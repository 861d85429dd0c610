use qfind::git_actions::{
    can_remove_worktree, command_words, finished_text, follow_up_merge, inspector_summary,
    merge_button, merge_plan, merge_target, project_title, push_args, running_text, tree_rows,
    worktree_args, worktree_removal,
};
use qfind::projects::Project;

fn checkout(path: &str, branch: &str, target: &str) -> Project {
    Project {
        path: path.into(),
        branch: branch.into(),
        target: target.into(),
        ahead: 0,
        behind: 0,
        conflicted: 0,
        dirty: 0,
        untracked: 0,
        artifacts: vec![],
        rust: false,
        node: false,
        git: true,
        web_tool: String::new(),
        worktrees: vec![],
        last_commit: String::new(),
        repository: "me/app".into(),
        modified: 0,
    }
}

#[test]
fn push_sets_upstream_only_when_missing() {
    let p = checkout("/r/app", "feature", "");
    assert_eq!(push_args(&p), vec!["push", "-u", "origin", "feature"]);
    let q = checkout("/r/app", "feature", "origin/feature");
    assert_eq!(push_args(&q), vec!["push"]);
    let detached = checkout("/r/app", "", "");
    assert_eq!(push_args(&detached), vec!["push"]);
}

#[test]
fn merge_target_drops_origin() {
    assert_eq!(merge_target("origin/main"), "main");
    assert_eq!(merge_target("upstream/main"), "upstream/main");
    assert_eq!(merge_target(""), "");
}

#[test]
fn merge_runs_in_a_sibling_on_the_target() {
    let mut feature = checkout("/r/app-feature", "feature", "origin/main");
    feature.worktrees = vec!["/r/app".into(), "/r/app-feature".into()];
    let main = checkout("/r/app", "main", "origin/main");
    let other = checkout("/elsewhere", "main", "");
    let all = vec![other, main, feature];
    let plan = merge_plan(&all, &all[2]).unwrap();
    assert_eq!(plan.dir, "/r/app");
    assert_eq!(plan.args, vec!["merge", "--no-ff", "feature"]);
    assert!(!plan.switching);
    assert_eq!(plan.message, "Merge feature into main?");
    assert_eq!(plan.detail, "git merge --no-ff feature in /r/app");
}

#[test]
fn merge_switches_without_a_sibling() {
    let feature = checkout("/r/app", "feature", "origin/main");
    let all = vec![checkout("/other", "main", "")];
    let plan = merge_plan(&all, &feature).unwrap();
    assert_eq!(plan.dir, "/r/app");
    assert_eq!(plan.args, vec!["switch", "main"]);
    assert!(plan.switching);
    assert_eq!(plan.detail, "git merge --no-ff feature after switching this checkout");
    assert_eq!(follow_up_merge("feature"), vec!["merge", "--no-ff", "feature"]);
}

#[test]
fn merge_refused_without_target_or_on_it() {
    let all: Vec<Project> = vec![];
    assert!(merge_plan(&all, &checkout("/r", "main", "")).is_none());
    assert!(merge_plan(&all, &checkout("/r", "main", "origin/main")).is_none());
    assert!(merge_plan(&all, &checkout("/r", "", "origin/main")).is_none());
}

#[test]
fn merge_button_label_and_state() {
    assert_eq!(merge_button(&checkout("/r", "f", "origin/main")), ("Merge → main".to_string(), true));
    assert_eq!(merge_button(&checkout("/r", "main", "origin/main")), ("Merge → main".to_string(), false));
    assert_eq!(merge_button(&checkout("/r", "f", "")), ("Merge ↓".to_string(), false));
    let mut local = checkout("/r", "f", "origin/main");
    local.git = false;
    assert_eq!(merge_button(&local).1, false);
}

#[test]
fn new_worktree_names() {
    assert_eq!(
        worktree_args("  feature/login/ ").unwrap(),
        vec!["worktree", "add", "../login", "-b", "feature/login"]
    );
    assert_eq!(
        worktree_args("fix").unwrap(),
        vec!["worktree", "add", "../fix", "-b", "fix"]
    );
    assert!(worktree_args(" // ").is_none());
    assert!(worktree_args("").is_none());
}

#[test]
fn removal_targets_the_main_checkout() {
    let mut p = checkout("/r/app-f", "f", "");
    assert_eq!(worktree_removal(&p), ("/r/app-f".to_string(), "/r/app-f".to_string()));
    assert!(!can_remove_worktree(&p));
    p.worktrees = vec!["/r/app".into(), "/r/app-f".into()];
    assert_eq!(worktree_removal(&p), ("/r/app".to_string(), "/r/app-f".to_string()));
    assert!(can_remove_worktree(&p));
    p.worktrees = vec!["/r/app-f/".into()];
    assert!(!can_remove_worktree(&p));
}

#[test]
fn typed_commands_lose_their_git() {
    assert_eq!(command_words("  git log --oneline  -3 "), vec!["log", "--oneline", "-3"]);
    assert_eq!(command_words("status"), vec!["status"]);
    assert!(command_words("   ").is_empty());
}

#[test]
fn titles_come_from_the_repository() {
    let mut p = checkout("/r/app", "main", "");
    assert_eq!(project_title(&p), "app");
    p.repository = "plain".into();
    assert_eq!(project_title(&p), "plain");
    p.repository = String::new();
    assert_eq!(project_title(&p), "app");
}

#[test]
fn output_texts() {
    let args = vec!["fetch".to_string(), "--all".to_string()];
    assert_eq!(running_text(&args), "$ git fetch --all\n…");
    assert_eq!(finished_text("pull", Ok("  \n".into())), "$ git pull\ndone");
    assert_eq!(finished_text("pull", Ok("Updated".into())), "$ git pull\nUpdated");
    assert_eq!(finished_text("pull", Err("fatal".into())), "$ git pull\nfatal");
}

#[test]
fn summary_lines() {
    let mut p = checkout("/r/app", "main", "origin/main");
    assert_eq!(inspector_summary(&p), "main → origin/main\nclean\nno commits");
    p.last_commit = "abc fix".into();
    p.dirty = 1;
    assert_eq!(inspector_summary(&p), "main → origin/main\n●1 · 0 untracked\nabc fix");
}

#[test]
fn worktree_rows_label_each_checkout() {
    let mut p = checkout("/r/app-f", "f", "");
    p.worktrees = vec!["/r/app".into(), "/r/app-f".into(), "/r/gone".into()];
    let mut main = checkout("/r/app", "main", "");
    main.untracked = 2;
    let known = vec![main, checkout("/r/app-f", "f", "")];
    let rows = tree_rows(&p, &known);
    assert_eq!(rows.len(), 3);
    assert_eq!(rows[0].label, "main  ·  app  ·  2 untracked");
    assert!(!rows[0].current && !rows[0].removable);
    assert_eq!(rows[1].label, "f  ·  app-f");
    assert!(rows[1].current && rows[1].removable);
    assert_eq!(rows[2].label, "?  ·  gone");
    let alone = checkout("/r/solo", "", "");
    let rows = tree_rows(&alone, &vec![]);
    assert_eq!(rows.len(), 1);
    assert_eq!(rows[0].path, "/r/solo");
    assert_eq!(rows[0].label, "?  ·  solo");
    assert!(rows[0].current && !rows[0].removable);
}
