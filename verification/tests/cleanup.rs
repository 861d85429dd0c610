use qfind::cleanup::{
    artifact_label, blocked_by_build, changed_since_review, cleanup_done, content_summary,
    is_build_process, is_process_entry, known_size_text, project_heading, projects_under,
    review_text, trash_failed, tracked_refusal,
};
use qfind::projects::{Artifact, Project};

fn project(path: &str, sizes: Vec<Option<u64>>) -> Project {
    Project {
        path: path.into(),
        branch: String::new(),
        target: String::new(),
        ahead: 0,
        behind: 0,
        conflicted: 0,
        dirty: 0,
        untracked: 0,
        artifacts: sizes
            .into_iter()
            .enumerate()
            .map(|(i, bytes)| Artifact { path: format!("{path}/target{i}"), bytes })
            .collect(),
        rust: true,
        node: false,
        git: true,
        web_tool: String::new(),
        worktrees: vec![],
        last_commit: String::new(),
        repository: String::new(),
        modified: 0,
    }
}

#[test]
fn projects_under_a_root() {
    let all = vec![project("/src/a", vec![]), project("/other/b", vec![]), project("/src/c/d", vec![])];
    assert_eq!(projects_under(&all, "/src"), vec![0, 2]);
    assert_eq!(projects_under(&all, "/sr"), Vec::<usize>::new());
}

#[test]
fn summary_counts_projects_and_bytes() {
    let measured = vec![project("/a", vec![Some(1024)]), project("/b", vec![Some(1024), Some(0)])];
    assert_eq!(content_summary(&measured), "2 projects · 2.0 KB in builds & dependencies");
    let pending = vec![project("/a", vec![Some(5), None])];
    assert_eq!(content_summary(&pending), "1 projects · build sizes below");
    assert_eq!(content_summary(&vec![]), "0 projects · 0 B in builds & dependencies");
}

#[test]
fn headings_and_labels() {
    let mut p = project("/src/app", vec![]);
    assert_eq!(project_heading(&p), "app  Rust Git");
    p.node = true;
    p.rust = false;
    p.git = false;
    assert_eq!(project_heading(&p), "app  JS ");
    assert_eq!(known_size_text(Some(2048), "measuring…"), "2.0 KB");
    assert_eq!(known_size_text(None, "measuring…"), "measuring…");
    assert_eq!(artifact_label("/src/app/target", "2.0 KB"), "target · 2.0 KB");
}

#[test]
fn review_lists_folders() {
    let text = review_text(&vec!["/a/target".to_string(), "/b/node_modules".to_string()]);
    assert!(text.starts_with("Move these folders to your desktop Trash?\n\n/a/target\n/b/node_modules\n\nRestore"));
    assert!(text.ends_with("Cleanup is blocked while build or package processes are active."));
}

#[test]
fn build_processes_block_cleanup() {
    assert!(is_build_process("cargo\n"));
    assert!(is_build_process("rust-analyzer"));
    assert!(!is_build_process("cargo-watch"));
    assert!(!is_build_process("bash\n"));
    assert!(is_process_entry("1234"));
    assert!(is_process_entry("+7"));
    assert!(!is_process_entry("self"));
    assert!(!is_process_entry("4294967296"));
    assert!(!is_process_entry(""));
}

#[test]
fn cleanup_reports() {
    assert_eq!(
        blocked_by_build(1),
        "Moved 1 folders; cleanup blocked by an active build/package process."
    );
    assert_eq!(changed_since_review("/a", true), "Folder changed since review: /a");
    assert_eq!(changed_since_review("/a", false), "Path changed since review: /a");
    assert_eq!(tracked_refusal("/a"), "Cleanup blocked: /a contains Git-tracked files");
    assert_eq!(trash_failed(0, "/a", "denied"), "Moved 0; /a: denied");
    assert_eq!(
        cleanup_done(2),
        "Moved 2 folders to your desktop Trash. Empty Trash separately to reclaim the space."
    );
}
