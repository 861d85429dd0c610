use qfind::layout::{layout_text, restore_layout, ColumnState, SavedColumn};

fn titles() -> Vec<String> {
    vec!["Name".into(), "Size".into(), "Modified".into(), "Kind".into()]
}

fn defaults() -> Vec<ColumnState> {
    vec![
        ColumnState { width: -1, visible: true, expand: true },
        ColumnState { width: 90, visible: true, expand: false },
        ColumnState { width: 110, visible: false, expand: false },
        ColumnState { width: 100, visible: true, expand: false },
    ]
}

fn saved(width: i32, visible: bool, expand: bool, title: &str) -> SavedColumn {
    SavedColumn { width, visible, expand, title: title.into() }
}

#[test]
fn layout_text_writes_header_and_lines() {
    let text = layout_text(&vec![saved(120, true, false, "Kind"), saved(-1, false, true, "Name")]);
    assert_eq!(text, "# columns-v2\n120\t1\t0\tKind\n-1\t0\t1\tName\n");
    assert_eq!(layout_text(&vec![]), "# columns-v2\n");
}

#[test]
fn layout_round_trip_restores_order_and_state() {
    let columns = vec![saved(120, true, false, "Kind"), saved(300, false, true, "Name"), saved(80, false, false, "Size")];
    let text = layout_text(&columns);
    let (states, order) = restore_layout(&text, &titles(), &defaults());
    assert_eq!(order, vec![3, 0, 1, 2]);
    assert_eq!(states[3], ColumnState { width: 120, visible: true, expand: false });
    // The first column always shows.
    assert_eq!(states[0], ColumnState { width: 300, visible: true, expand: true });
    assert_eq!(states[1], ColumnState { width: 80, visible: false, expand: false });
    assert_eq!(states[2], defaults()[2]);
}

#[test]
fn layout_restore_clamps_and_skips() {
    let text = "# columns-v2\nnot a layout line\n99999\t1\t1\tSize\n-5\t0\t0\tKind\nabc\t1\t1\tModified\n1\t1\t1\tMissing\n";
    let (states, order) = restore_layout(text, &titles(), &defaults());
    assert_eq!(states[1], ColumnState { width: 10000, visible: true, expand: true });
    assert_eq!(states[3], ColumnState { width: -1, visible: false, expand: false });
    assert_eq!(states[2], ColumnState { width: 110, visible: true, expand: true });
    assert_eq!(states[0], defaults()[0]);
    // Size moves to position 1, Kind to 2, Modified to 3.
    assert_eq!(order, vec![0, 1, 3, 2]);
}

#[test]
fn layout_restore_title_with_tabs() {
    let titles = vec!["A".to_string(), "B\tC".to_string()];
    let defaults = vec![ColumnState { width: 1, visible: true, expand: false }; 2];
    let text = layout_text(&vec![saved(7, true, false, "B\tC")]);
    let (states, order) = restore_layout(&text, &titles, &defaults);
    assert_eq!(order, vec![1, 0]);
    assert_eq!(states[1], ColumnState { width: 7, visible: true, expand: false });
}

#[test]
fn legacy_layout_hides_listed_titles() {
    let (states, order) = restore_layout("Size\nKind\nName\n", &titles(), &defaults());
    assert_eq!(order, vec![0, 1, 2, 3]);
    assert!(states[0].visible);
    assert!(!states[1].visible);
    assert!(!states[2].visible);
    assert!(!states[3].visible);
    assert_eq!(states[1].width, 90);
    let (states, _) = restore_layout("", &titles(), &defaults());
    assert_eq!(states.iter().map(|s| s.visible).collect::<Vec<_>>(), vec![true, true, false, true]);
}
