use qfind::search::SortMode;
use qfind::window::{
    class_at, folders_first, live_weight, location_target, pin_icon, route_missing, search_route,
    sort_at, status_text, FileClass, SearchRoute,
};

#[test]
fn toolbar_choices() {
    assert_eq!(class_at(1), FileClass::Image);
    assert_eq!(class_at(5), FileClass::Archive);
    assert_eq!(class_at(0), FileClass::All);
    assert_eq!(class_at(99), FileClass::All);
    assert_eq!(sort_at(3), SortMode::Newest);
    assert_eq!(sort_at(6), SortMode::Smallest);
    assert_eq!(sort_at(7), SortMode::Score);
}

#[test]
fn search_routes() {
    assert_eq!(search_route(true, false), SearchRoute::Live);
    assert_eq!(search_route(true, true), SearchRoute::Folder);
    assert_eq!(search_route(false, true), SearchRoute::Catalog);
    assert_eq!(route_missing(SearchRoute::Catalog), "Catalog is not ready");
    assert_eq!(route_missing(SearchRoute::Live), "No folder selected");
}

#[test]
fn folders_move_first_stably() {
    let ids = vec![10, 11, 12, 13, 14];
    let is_dir = vec![false, true, false, true, false];
    assert_eq!(folders_first(ids, &is_dir), vec![11, 13, 10, 12, 14]);
}

#[test]
fn status_lines() {
    assert_eq!(status_text(true, 5, 100, 900, 1, 4, None), "5 Hits  ·  100 folders · 900 files");
    assert_eq!(status_text(false, 5, 100, 900, 1, 4, Some("/x/y")), "1 folders · 4 files  ·  /x/y");
}

#[test]
fn location_entry_and_icons() {
    assert_eq!(location_target("/abs", "/base"), "/abs");
    assert_eq!(location_target("rel/x", "/base"), "/base/rel/x");
    assert_eq!(pin_icon(true), "starred-symbolic");
    assert_eq!(pin_icon(false), "non-starred-symbolic");
    assert_eq!(live_weight(0), 1);
    assert_eq!(live_weight(9), 9);
}
