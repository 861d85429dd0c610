use qfind::changes::{
    changed_files, diff_command, empty_diff_text, failure_label, names_command, picker_position,
    scope_text, stage_command, stage_texts, stageable_path, status_label,
};

#[test]
fn footer_counts_status_lines() {
    assert_eq!(status_label("main\n", ""), "main · clean");
    assert_eq!(status_label("main", " M a.rs\n"), "main · 1 change");
    assert_eq!(status_label(" dev ", " M a.rs\n?? b.rs\n"), "dev · 2 changes");
}

#[test]
fn changed_files_sorted_once() {
    assert_eq!(changed_files("b.rs\0a.rs\0\0b.rs\0c/d.rs\0"), vec!["a.rs", "b.rs", "c/d.rs"]);
    assert!(changed_files("").is_empty());
    assert_eq!(changed_files("z\0Z\0"), vec!["Z", "z"]);
}

#[test]
fn commands() {
    assert_eq!(stage_command(false, true), vec!["add"]);
    assert_eq!(stage_command(true, true), vec!["restore", "--staged"]);
    assert_eq!(stage_command(true, false), vec!["rm", "--cached"]);
    assert_eq!(names_command(true), vec!["diff", "--name-only", "-z", "--cached"]);
    assert_eq!(names_command(false), vec!["diff", "--name-only", "-z"]);
    assert_eq!(diff_command(false), vec!["diff", "--no-ext-diff", "--no-textconv", "--no-color"]);
    assert_eq!(
        diff_command(true),
        vec!["diff", "--no-ext-diff", "--no-textconv", "--no-color", "--cached"]
    );
}

#[test]
fn only_plain_relative_paths_stage() {
    assert!(stageable_path("src/main.rs"));
    assert!(!stageable_path("/etc/passwd"));
    assert!(!stageable_path("../x"));
    assert!(!stageable_path("./x"));
    assert!(!stageable_path("a/../b"));
    assert!(stageable_path("a/./b"));
}

#[test]
fn panel_texts() {
    assert_eq!(empty_diff_text(true, "x"), "No staged changes for this selection.");
    assert_eq!(
        empty_diff_text(false, " M a"),
        "No unstaged diff for this selection.\nChoose an untracked file above to preview its additions.\n\n M a"
    );
    assert_eq!(stage_texts(true), ("Unstage file", "Unstaging file…", "File unstaged"));
    assert_eq!(stage_texts(false), ("Stage file", "Staging file…", "File staged"));
    assert_eq!(failure_label("fatal: not a git repository (or any parent)"), "Not a Git repo");
    assert_eq!(failure_label("fatal: bad object"), "Git · unavailable");
}

#[test]
fn scope_and_picker() {
    assert_eq!(scope_text(Some("src/a.rs"), Some("/r/b"), "/r"), "src/a.rs");
    assert_eq!(scope_text(None, Some("/r/b/c"), "/r"), "b/c");
    assert_eq!(scope_text(None, Some("/elsewhere"), "/r"), "/elsewhere");
    assert_eq!(scope_text(None, None, "/r"), "All tracked changes");
    let names = vec!["All changes".to_string(), "a.rs".to_string(), "b/c.rs".to_string()];
    assert_eq!(picker_position(&names, Some("b/c.rs")), 2);
    assert_eq!(picker_position(&names, Some("b//c.rs")), 2);
    assert_eq!(picker_position(&names, Some("zzz")), 0);
    assert_eq!(picker_position(&names, None), 0);
}
