use qfind::surface::{
    grid_cell_px, grid_columns, grid_icon_px, highlight_path, list_metrics, open_folder,
    paint_icon, paint_icon_cached, preview_path, tile_hue, tree_indent, twist_label, zebra_odd, FoldSet, IconCache,
    PreviewMode,
};

#[test]
fn preview_follows_the_mode() {
    let h = Some("/h".to_string());
    let s = Some("/s".to_string());
    assert_eq!(preview_path(PreviewMode::Hovered, h.clone(), s.clone()), h);
    assert_eq!(preview_path(PreviewMode::Selected, h.clone(), s.clone()), s);
    assert_eq!(preview_path(PreviewMode::Hovered, None, s.clone()), s);
    assert_eq!(preview_path(PreviewMode::Selected, h.clone(), None), h);
    assert_eq!(preview_path(PreviewMode::Selected, None, None), None);
}

#[test]
fn chart_hover_highlights_related_paths() {
    assert!(highlight_path(Some("/a/b"), Some("/a/b/c.txt")));
    assert!(highlight_path(Some("/a/b/c.txt"), Some("/a/b")));
    assert!(highlight_path(Some("/a/b"), Some("/a/b")));
    assert!(!highlight_path(Some("/a/bc"), Some("/a/b")));
    assert!(!highlight_path(None, Some("/a")));
    assert!(!highlight_path(Some("/a"), None));
}

#[test]
fn icon_keys_by_last_extension() {
    assert_eq!(paint_icon(true, "folder.d"), None);
    assert_eq!(paint_icon(false, "Photo.JPG"), Some("jpg".to_string()));
    assert_eq!(paint_icon(false, "archive.tar.GZ"), Some("gz".to_string()));
    assert_eq!(paint_icon(false, "README"), Some(String::new()));
    assert_eq!(paint_icon(false, ".bashrc"), Some("bashrc".to_string()));
    assert_eq!(paint_icon(false, "end."), Some(String::new()));
}

#[test]
fn open_folder_targets() {
    assert_eq!(open_folder("/a/b", true), "/a/b");
    assert_eq!(open_folder("/a/b/c.txt", false), "/a/b");
    assert_eq!(open_folder("/", false), "/");
}

#[test]
fn zebra_paints_odd_rows() {
    assert!(zebra_odd(true, 1));
    assert!(!zebra_odd(true, 2));
    assert!(!zebra_odd(false, 1));
}

#[test]
fn fold_set_toggles() {
    let mut f = FoldSet::new();
    assert!(!f.contains("/a"));
    f.toggle("/a");
    assert!(f.contains("/a"));
    f.toggle("/b");
    f.toggle("/a");
    assert!(!f.contains("/a"));
    assert!(f.contains("/b"));
    f.clear();
    assert!(!f.contains("/b"));
}

#[test]
fn fold_set_toggle_twice_is_identity() {
    let mut f = FoldSet::new();
    f.toggle("/x");
    f.toggle("/y");
    f.toggle("/x");
    assert!(!f.contains("/x"));
    assert!(f.contains("/y"));
}

#[test]
fn twist_labels() {
    assert_eq!(twist_label(true, false, true), ("▾", true));
    assert_eq!(twist_label(true, true, true), ("▸", true));
    assert_eq!(twist_label(false, false, true), ("▸", false));
    assert_eq!(twist_label(false, false, false), ("·", false));
}

#[test]
fn list_and_grid_metrics() {
    assert_eq!(list_metrics(0, 0), (24, 1, 18));
    assert_eq!(list_metrics(12, 7), (26, 3, 20));
    assert_eq!(list_metrics(200, 255), (30, 86, 24));
    assert_eq!(grid_cell_px(100), 96);
    assert_eq!(grid_cell_px(200), 176);
    assert_eq!(grid_icon_px(96), 32);
    assert_eq!(grid_icon_px(130), 64);
    assert_eq!(grid_icon_px(400), 96);
    assert_eq!(grid_columns(1, 96), None);
    assert_eq!(grid_columns(50, 96), Some(1));
    assert_eq!(grid_columns(1000, 96), Some(9));
}

fn fnv(path: &str) -> u32 {
    let mut h = 2_166_136_261u32;
    for b in path.bytes() {
        h ^= u32::from(b);
        h = h.wrapping_mul(16_777_619);
    }
    h
}

#[test]
fn tile_hues_use_fnv1a() {
    for (i, path) in [(0usize, ""), (1, "/home"), (7, "/home/user/Music/é.flac"), (399, "x")] {
        let want = fnv(path).wrapping_add(i as u32 * 17) % 360;
        assert_eq!(tile_hue(i, path), want);
    }
    assert_eq!(tile_hue(0, ""), 2_166_136_261 % 360);
}

#[test]
fn icon_cache_keeps_existing_icons() {
    let mut cache: IconCache<u32> = IconCache::new();
    let mut made = 0;
    assert_eq!(paint_icon_cached(&mut cache, false, "a.PNG", || { made += 1; 7 }), Some("png".to_string()));
    assert_eq!(made, 1);
    assert_eq!(cache.get("png"), Some(&7));
    assert_eq!(paint_icon_cached(&mut cache, false, "b.png", || 9), Some("png".to_string()));
    assert_eq!(cache.get("png"), Some(&7));
    assert_eq!(paint_icon_cached(&mut cache, true, "dir.png", || 11), None);
    assert_eq!(cache.get("dir"), None);
    assert_eq!(paint_icon_cached(&mut cache, false, "README", || 3), Some(String::new()));
    assert_eq!(cache.get(""), Some(&3));
    assert_eq!(cache.get("png"), Some(&7));
}

#[test]
fn tile_hue_takes_the_index_as_u32() {
    assert_eq!(tile_hue((1usize << 32) + 2, "/a"), tile_hue(2, "/a"));
}

#[test]
fn tree_rows_indent_by_depth() {
    assert_eq!(tree_indent(0), 6);
    assert_eq!(tree_indent(2), 38);
    assert_eq!(tree_indent(u32::MAX), -10);
}
