use qfind::manager::{
    compressed_text, extension_list, kind_admits, manager_step, match_summary, matching_rows,
    nested_refusal, nested_selection, not_archive_refusal, rename_done, rename_preview,
    rename_refusal, rename_stopped, renames_to_do, row_selected, split_on, taken_refusal,
    target_name, transfer_done, transfer_initial, transfer_stopped, transfer_title, ManagerStep,
    Transfer,
};

fn strings(v: &[&str]) -> Vec<String> {
    v.iter().map(|s| s.to_string()).collect()
}

#[test]
fn split_keeps_empty_pieces() {
    let pieces = split_on(&"a,,b,".chars().collect::<Vec<_>>(), ',');
    let texts: Vec<String> = pieces.iter().map(|p| p.iter().collect()).collect();
    assert_eq!(texts, vec!["a", "", "b", ""]);
    assert_eq!(split_on(&[], ',').len(), 1);
}

#[test]
fn extensions_are_cleaned() {
    assert_eq!(extension_list(" RS, .toml,, ..Md ,"), vec!["rs", "toml", "md"]);
    assert!(extension_list("").is_empty());
    assert!(extension_list(" . , ").is_empty());
}

#[test]
fn kinds_filter_rows() {
    assert!(kind_admits(0, true, false));
    assert!(kind_admits(1, false, false));
    assert!(!kind_admits(1, true, true));
    assert!(kind_admits(2, true, false));
    assert!(!kind_admits(2, false, true));
    assert!(kind_admits(4, false, true));
    assert!(!kind_admits(6, false, false));
    assert!(kind_admits(7, false, false));
}

#[test]
fn rows_match_name_extension_and_kind() {
    let exts = extension_list("rs");
    assert!(row_selected("Main.RS", false, "MAIN", &exts, 0, false));
    assert!(!row_selected("main.rs", true, "", &exts, 0, false));
    assert!(!row_selected("main.toml", false, "", &exts, 0, false));
    assert!(row_selected("notes", true, "not", &vec![], 2, false));
    assert!(!row_selected("notes", true, "xyz", &vec![], 0, false));
}

#[test]
fn matching_positions_and_summary() {
    let names = strings(&["a.rs", "b.toml", "src", "c.RS"]);
    let dirs = vec![false, false, true, false];
    let classes = vec![false; 4];
    assert_eq!(matching_rows(&names, &dirs, &classes, "", "rs", 0), vec![0, 3]);
    assert_eq!(matching_rows(&names, &dirs, &classes, "", "", 2), vec![2]);
    assert_eq!(match_summary(2), "2 matches in the currently loaded results");
}

#[test]
fn manager_steps() {
    assert_eq!(manager_step("select-matching", false), ManagerStep::SelectMatching);
    assert_eq!(manager_step("batch-copy", false), ManagerStep::NeedSelection);
    assert_eq!(manager_step("batch-rename", true), ManagerStep::Rename);
    assert_eq!(manager_step("batch-copy", true), ManagerStep::Transfer(Transfer::Copy));
    assert_eq!(manager_step("batch-move", true), ManagerStep::Transfer(Transfer::Move));
    assert_eq!(manager_step("batch-zip", true), ManagerStep::Transfer(Transfer::Compress));
    assert_eq!(manager_step("batch-extract", true), ManagerStep::Transfer(Transfer::Extract));
}

#[test]
fn transfer_prompts_and_targets() {
    assert_eq!(transfer_title(Transfer::Compress), "Compress selected (.zip, .7z, .tar.gz)");
    assert_eq!(transfer_title(Transfer::Extract), "Extract archives to folder");
    assert_eq!(transfer_initial("/home/u", Transfer::Compress), "/home/u/Archive.zip");
    assert_eq!(transfer_initial("/home/u", Transfer::Copy), "/home/u/");
    assert_eq!(target_name("a.zip", Transfer::Extract), "a.zip.extracted");
    assert_eq!(target_name("a.zip", Transfer::Move), "a.zip");
}

#[test]
fn nested_selections_are_found() {
    let paths = strings(&["/a", "/a/b", "/ab"]);
    assert!(!nested_selection(&paths, 0));
    assert!(nested_selection(&paths, 1));
    assert!(!nested_selection(&paths, 2));
    assert_eq!(
        nested_refusal(),
        "Destination or selection is nested inside another selected folder"
    );
}

#[test]
fn transfer_reports() {
    assert_eq!(taken_refusal("/d/x"), "Destination already exists or repeats: /d/x");
    assert_eq!(not_archive_refusal("/d/x"), "Not a supported archive: /d/x");
    assert_eq!(
        transfer_stopped(2, "/s", "denied"),
        "Completed 2; stopped at /s: denied\nCheck the destination for partial output before retrying."
    );
    assert_eq!(transfer_done(3, "/d"), "Completed 3 items in /d");
    assert_eq!(compressed_text("/d/a.zip"), "Created /d/a.zip");
}

#[test]
fn rename_preview_and_reports() {
    let pairs = vec![
        ("/d/a.txt".to_string(), "/d/x-a.txt".to_string()),
        ("/d/b.txt".to_string(), "/d/b.txt".to_string()),
    ];
    let (text, any) = rename_preview(&pairs);
    assert_eq!(text, "/d/a.txt  →  x-a.txt\n/d/b.txt  →  b.txt");
    assert!(any);
    let same = vec![("/d/b.txt".to_string(), "/d/b.txt".to_string())];
    assert!(!rename_preview(&same).1);
    let many: Vec<(String, String)> =
        (0..250).map(|i| (format!("/d/{i}"), format!("/d/{i}"))).collect();
    assert_eq!(rename_preview(&many).0.lines().count(), 200);
    assert_eq!(renames_to_do(&pairs), vec![("/d/a.txt".to_string(), "/d/x-a.txt".to_string())]);
    assert_eq!(rename_refusal("/d/x"), "Nothing renamed: /d/x already exists");
    assert_eq!(rename_stopped(1, "/d/a", "busy"), "Renamed 1; stopped at /d/a: busy");
    assert_eq!(rename_done(4), "Renamed 4 items.");
}
