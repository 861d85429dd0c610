use qfind::search::MatchMode;
use qfind::settings::{
    catalog_settings_changed, clean_items, index_of, match_at, match_index, open_at, open_index,
    pick_wrapped, preview_at, preview_index, rows_for, same_texts, trim, OpenMode,
};
use qfind::surface::PreviewMode;

fn strings(items: &[&str]) -> Vec<String> {
    items.iter().map(|s| s.to_string()).collect()
}

#[test]
fn appearance_changes_do_not_rebuild_the_catalog() {
    let exclude = strings(&["node_modules", ".git"]);
    let roots: Vec<String> = vec![];
    let mut next_exclude = exclude.clone();
    let next_roots = roots.clone();
    assert!(!catalog_settings_changed(&exclude, &roots, &next_exclude, &next_roots));
    next_exclude.push("target".into());
    assert!(catalog_settings_changed(&exclude, &roots, &next_exclude, &next_roots));
}

#[test]
fn root_changes_rebuild_the_catalog() {
    let exclude = strings(&["a"]);
    assert!(catalog_settings_changed(&exclude, &vec![], &exclude, &strings(&["/mnt"])));
    assert!(same_texts(&strings(&["x", "y"]), &strings(&["x", "y"])));
    assert!(!same_texts(&strings(&["x", "y"]), &strings(&["y", "x"])));
}

#[test]
fn drop_down_rows_round_trip() {
    for m in [PreviewMode::Hovered, PreviewMode::Selected] {
        assert_eq!(preview_at(preview_index(m)), m);
    }
    for m in [MatchMode::Fuzzy, MatchMode::Substring, MatchMode::Exact] {
        assert_eq!(match_at(match_index(m)), m);
    }
    for m in [OpenMode::Auto, OpenMode::Xdg, OpenMode::Editor] {
        assert_eq!(open_at(open_index(m)), m);
    }
    assert_eq!(match_at(9), MatchMode::Fuzzy);
    assert_eq!(open_at(7), OpenMode::Auto);
    assert_eq!(preview_at(3), PreviewMode::Hovered);
}

#[test]
fn rows_of_named_choices() {
    let themes = strings(&["titanium", "grok", "nord"]);
    assert_eq!(index_of(&themes, "grok"), 1);
    assert_eq!(index_of(&themes, "missing"), 0);
    assert_eq!(pick_wrapped(&themes, 4), "grok");
}

#[test]
fn list_editor_cleaning() {
    assert_eq!(trim("  a b \t"), "a b");
    assert_eq!(trim("\u{3000}x\u{a0}"), "x");
    assert_eq!(trim("   "), "");
    let items = strings(&[" target ", "", "  ", "node_modules"]);
    assert_eq!(clean_items(&items), strings(&["target", "node_modules"]));
    assert_eq!(rows_for(&vec![]), strings(&[""]));
    assert_eq!(rows_for(&strings(&["a", "b"])), strings(&["a", "b"]));
}

#[test]
fn roots_compare_as_paths() {
    let exclude = strings(&["a"]);
    assert!(!catalog_settings_changed(&exclude, &strings(&["/mnt/x"]), &exclude, &strings(&["/mnt/x/"])));
    assert!(!catalog_settings_changed(&exclude, &strings(&["/mnt//x"]), &exclude, &strings(&["/mnt/x"])));
    assert!(catalog_settings_changed(&exclude, &strings(&["/mnt/x"]), &exclude, &strings(&["/mnt/y"])));
    assert!(catalog_settings_changed(&exclude, &strings(&["/a", "/b"]), &exclude, &strings(&["/b", "/a"])));
}

#[test]
fn unchanged_roots_do_not_rebuild_the_catalog() {
    let exclude = strings(&["a"]);
    let roots = strings(&["/mnt", "/srv"]);
    assert!(!catalog_settings_changed(&exclude, &roots, &exclude.clone(), &roots.clone()));
}
