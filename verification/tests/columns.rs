use qfind::columns::{sort_text, text_key, text_sort_key, text_value, TextKey};
use qfind::row::RowData;

fn key(later: bool, value: &str, path: &str) -> TextKey {
    TextKey { later, value: value.chars().collect(), path: path.chars().collect() }
}

#[test]
fn kind_column_texts() {
    assert_eq!(text_key("a.txt", "/x/a.txt", false, false), "TXT file");
    assert_eq!(text_key("archive.tar.gz", "/x/archive.tar.gz", false, false), "GZ file");
    assert_eq!(text_key("Makefile", "/x/Makefile", false, false), "File");
    assert_eq!(text_key(".bashrc", "/home/u/.bashrc", false, false), "File");
    assert_eq!(text_key("a.", "/x/a.", false, false), "File");
    assert_eq!(text_key("photos", "/x/photos", true, false), "Folder");
    assert_eq!(text_key("straße.ß", "/x/straße.ß", false, false), "SS file");
}

#[test]
fn location_column_texts() {
    assert_eq!(text_key("a.txt", "/x/y/a.txt", false, true), "/x/y");
    assert_eq!(text_key("photos", "/x/photos", true, true), "/x");
    assert_eq!(text_key("/", "/", true, true), "");
    assert_eq!(text_key("a.txt", "a.txt", false, true), "");
}

#[test]
fn text_value_reads_the_row() {
    let row = RowData::new("notes.md".into(), "/docs/notes.md".into(), false, 1, 1);
    assert_eq!(text_value(&row, false), "MD file");
    assert_eq!(text_value(&row, true), "/docs");
}

#[test]
fn text_sort_key_groups_files_after_folders() {
    let file = RowData::new("a.txt".into(), "/x/a.txt".into(), false, 0, 0);
    let k = text_sort_key(&file, false, true);
    assert!(k.later);
    assert_eq!(k.value.iter().collect::<String>(), "TXT file");
    assert_eq!(k.path.iter().collect::<String>(), "/x/a.txt");
    assert!(!text_sort_key(&file, false, false).later);
}

#[test]
fn sort_text_orders_by_group_text_then_path() {
    let items = vec!["f2", "d1", "f1", "d2"];
    let keys = vec![
        key(true, "TXT file", "/b"),
        key(false, "Folder", "/z"),
        key(true, "MD file", "/a"),
        key(false, "Folder", "/y"),
    ];
    assert_eq!(sort_text(items.clone(), &keys, false), vec!["d2", "d1", "f1", "f2"]);
    assert_eq!(sort_text(items, &keys, true), vec!["d2", "d1", "f2", "f1"]);
}

#[test]
fn sort_text_keeps_path_tiebreak_ascending_when_descending() {
    let items = vec![1, 2, 3];
    let keys = vec![key(false, "A", "/c"), key(false, "A", "/a"), key(false, "B", "/b")];
    assert_eq!(sort_text(items, &keys, true), vec![3, 2, 1]);
}
