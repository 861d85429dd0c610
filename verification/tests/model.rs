use qfind::model::{keep_cached, position};

#[test]
fn positions_of_hits() {
    let ids = vec![7, 3, 9, 3];
    assert_eq!(position(&ids, 3), Some(1));
    assert_eq!(position(&ids, 9), Some(2));
    assert_eq!(position(&ids, 4), None);
}

#[test]
fn row_cache_keeps_listed_rows() {
    assert_eq!(keep_cached(&vec![1, 2, 3, 4], &vec![4, 2, 8]), vec![2, 4]);
    let cached: Vec<u32> = (0..600).collect();
    let ids: Vec<u32> = (0..513).collect();
    assert!(keep_cached(&cached, &ids).is_empty());
    let ids: Vec<u32> = (0..512).collect();
    assert_eq!(keep_cached(&cached, &ids).len(), 512);
}

#[test]
fn live_rows_are_found_by_path() {
    let paths = vec!["/a".to_string(), "/b".to_string(), "/b".to_string()];
    assert_eq!(qfind::model::path_position(&paths, "/b"), Some(1));
    assert_eq!(qfind::model::path_position(&paths, "/b/"), None);
    assert_eq!(qfind::model::path_position(&paths, "/c"), None);
}
