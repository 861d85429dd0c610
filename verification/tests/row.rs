use qfind::row::RowData;

#[test]
fn row_new_holds_metadata() {
    let r = RowData::new("a.txt".into(), "/x/a.txt".into(), false, 42, 1700);
    assert_eq!(r.name(), "a.txt");
    assert_eq!(r.path(), "/x/a.txt");
    assert!(!r.is_dir());
    assert_eq!(r.depth(), 0);
    assert!(!r.has_kids());
    assert_eq!(r.size(), 42);
    assert_eq!(r.modified(), 1700);
}

#[test]
fn row_with_depth_and_fold() {
    let r = RowData::with_depth("d".into(), "/d".into(), true, 3);
    assert_eq!((r.depth(), r.has_kids(), r.size(), r.modified()), (3, false, 0, 0));
    let f = RowData::with_fold("d".into(), "/d".into(), true, 2, true);
    assert_eq!((f.depth(), f.has_kids(), f.is_dir()), (2, true, true));
}

#[test]
fn row_fill_metadata_changes_only_size_and_time() {
    let mut r = RowData::with_fold("n".into(), "/p/n".into(), false, 1, true);
    r.fill_metadata(99, 123);
    assert_eq!((r.size(), r.modified()), (99, 123));
    assert_eq!((r.name().as_str(), r.path().as_str(), r.depth(), r.has_kids()), ("n", "/p/n", 1, true));
}

#[test]
fn rows_with_known_time_skip_the_stat() {
    let r = RowData::new("a.txt".into(), "/x/a.txt".into(), false, 42, 1700);
    assert!(!r.needs_stat());
    assert_eq!(r.stat_update(Some((7, 1800))), None);
}

#[test]
fn files_take_their_length_and_time_from_a_stat() {
    let r = RowData::new("a.txt".into(), "/x/a.txt".into(), false, 0, 0);
    assert!(r.needs_stat());
    assert_eq!(r.stat_update(Some((7, 1800))), Some((7, 1800)));
    assert_eq!(r.stat_update(None), None);
}

#[test]
fn folders_keep_their_size_after_a_stat() {
    let r = RowData::new("src".into(), "/x/src".into(), true, 4096, -1);
    assert!(r.needs_stat());
    assert_eq!(r.stat_update(Some((7, 1800))), Some((4096, 1800)));
}
