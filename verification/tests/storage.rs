use qfind::storage::{hover_text, indexed_center_text, live_center_text, slice_weight};
use qfind::storage::{
    capacity_text, folder_detail, global_detail, live_node_id, trim_live_nodes, weighs_by_bytes,
    with_other, StorageEntry,
};

fn node(name: &str, bytes: u64, entries: u64) -> StorageEntry {
    StorageEntry { id: 1, name: name.into(), path: format!("/{name}"), is_dir: true, bytes, entries }
}

#[test]
fn live_nodes_sorted_and_trimmed() {
    let nodes = vec![node("a", 5, 1), node("b", 9, 1), node("c", 5, 1)];
    let out = trim_live_nodes(nodes);
    assert_eq!(out.iter().map(|n| n.name.as_str()).collect::<Vec<_>>(), vec!["b", "a", "c"]);
    let many: Vec<StorageEntry> = (0..70).map(|i| node(&format!("n{i}"), 100 + i as u64, 0)).collect();
    let out = trim_live_nodes(many);
    assert_eq!(out.len(), 64);
    assert_eq!(out[0].name, "n69");
    let other = &out[63];
    assert_eq!((other.id, other.name.as_str(), other.path.as_str(), other.is_dir), (u32::MAX, "Other", "", false));
    assert_eq!(other.bytes, (100..107).sum::<u64>());
}

#[test]
fn live_nodes_without_remainder() {
    let mut many: Vec<StorageEntry> = (0..63).map(|i| node(&format!("n{i}"), 10, 0)).collect();
    many.push(node("zero", 0, 0));
    let out = trim_live_nodes(many);
    assert_eq!(out.len(), 63);
}

#[test]
fn other_slice_holds_the_rest() {
    let children = vec![node("a", 10, 2), node("b", 5, 3)];
    let out = with_other(children, 40, 5, "/p/Other small items".into(), true);
    assert_eq!(out.len(), 3);
    assert_eq!((out[2].bytes, out[2].entries), (25, 0));
    assert_eq!(out[2].path, "/p/Other small items");
    let out = with_other(vec![node("a", 10, 2)], 10, 9, "x".into(), true);
    assert_eq!(out.len(), 1);
    let out = with_other(vec![node("a", 10, 2)], 10, 9, "x".into(), false);
    assert_eq!((out.len(), out[1].entries, out[1].bytes), (2, 7, 0));
    let out = with_other(vec![node("a", u64::MAX, 0), node("b", 1, 0)], 3, 0, "x".into(), true);
    assert_eq!(out.len(), 2);
}

#[test]
fn live_ids_and_weights() {
    assert_eq!(live_node_id(0), u32::MAX - 1);
    assert_eq!(live_node_id(5), u32::MAX - 6);
    assert!(weighs_by_bytes(&vec![node("a", 0, 1), node("b", 3, 0)]));
    assert!(!weighs_by_bytes(&vec![node("a", 0, 1)]));
}

#[test]
fn chart_texts() {
    assert_eq!(capacity_text(2048, 1024), "1.0 KB free of 2.0 KB · volume");
    assert_eq!(capacity_text(1024, 4096), "1.0 KB free of 1.0 KB · volume");
    assert_eq!(folder_detail(1536, 3, true), "1.5 KB apparent size · click center to go up");
    assert_eq!(folder_detail(0, 3, false), "3 indexed items · click center to go up");
    assert_eq!(global_detail(2048, 9, 2), "2.0 KB apparent size · 2 indexed locations");
    assert_eq!(global_detail(0, 9, 2), "9 items · refresh Catalog for sizes · 2 indexed locations");
}

#[test]
fn chart_center_and_hover() {
    assert_eq!(live_center_text(&vec![1024, 1024]), "2.0 KB");
    assert_eq!(live_center_text(&vec![u64::MAX, 5]), live_center_text(&vec![u64::MAX]));
    assert_eq!(live_center_text(&vec![]), "0 B");
    assert_eq!(indexed_center_text(true, 512, 9), "512 B");
    assert_eq!(indexed_center_text(false, 0, 9), "9 items");
    assert_eq!(hover_text("src", 2048), "src · 2.0 KB");
    assert_eq!(slice_weight(0, 7, true), 1);
    assert_eq!(slice_weight(0, 7, false), 7);
    assert_eq!(slice_weight(9, 0, true), 9);
    assert_eq!(slice_weight(9, 0, false), 1);
}
