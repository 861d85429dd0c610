use qfind::patch::{fold_label, hunk_step, patch_step, PatchState, RowTag, SplitRow};
use qfind::surface::FoldSet;

const PATCH: &str = "diff --git a/x.rs b/x.rs\n--- a/x.rs\n+++ b/x.rs\n@@ -10,3 +10,3 @@ fn main\n a\n-b\n+c\n d\n";

#[test]
fn unified_rows_carry_line_numbers() {
    let mut state = PatchState::new();
    let folded = FoldSet::new();
    let rows: Vec<(String, RowTag, bool)> = PATCH
        .lines()
        .map(|line| {
            let out = patch_step(&mut state, line, true, &folded);
            (out.unified, out.tag, out.flush)
        })
        .collect();
    assert_eq!(rows[0], ("            │ diff --git a/x.rs b/x.rs\n".to_string(), RowTag::Header, true));
    assert_eq!(rows[3].0, "            │ @@ -10,3 +10,3 @@ fn main\n");
    assert_eq!(rows[4], ("   10    10 │  a\n".to_string(), RowTag::Plain, true));
    assert_eq!(rows[5], ("   11       │ -b\n".to_string(), RowTag::Removed, false));
    assert_eq!(rows[6], ("         11 │ +c\n".to_string(), RowTag::Added, false));
    assert_eq!(rows[7], ("   12    12 │  d\n".to_string(), RowTag::Plain, true));
    assert_eq!((state.old, state.new), (13, 13));
    assert_eq!(state.file, "x.rs");
}

#[test]
fn hunk_entries_and_folding() {
    let mut state = PatchState::new();
    let mut folded = FoldSet::new();
    let mut hunk_key = None;
    for line in PATCH.lines() {
        let out = patch_step(&mut state, line, true, &folded);
        if let Some((key, label)) = out.hunk {
            assert_eq!(key, "x.rs\n@@ -10,3 +10,3 @@ fn main");
            assert_eq!(label, "x.rs · @@ -10,3 +10,3 @@ fn main");
            hunk_key = Some(key);
        }
    }
    folded.toggle(&hunk_key.unwrap());
    let mut state = PatchState::new();
    let shown: Vec<(bool, String)> = PATCH
        .lines()
        .map(|line| {
            let out = patch_step(&mut state, line, true, &folded);
            (out.shown, out.unified)
        })
        .collect();
    assert!(shown[3].0);
    assert!(shown[3].1.ends_with("@@ fn main  [collapsed]\n"));
    assert!(shown[4..].iter().all(|(s, _)| !s));
}

#[test]
fn context_lines_hide_without_context() {
    let mut state = PatchState::new();
    let folded = FoldSet::new();
    let shown: Vec<bool> = PATCH.lines().map(|l| patch_step(&mut state, l, false, &folded).shown).collect();
    assert_eq!(shown, vec![true, true, true, true, false, true, true, false]);
}

#[test]
fn side_by_side_rows() {
    let mut state = PatchState::new();
    let folded = FoldSet::new();
    let outs: Vec<_> = PATCH.lines().map(|l| patch_step(&mut state, l, true, &folded).split).collect();
    match &outs[5] {
        Some(SplitRow::Removed(r)) => assert_eq!(r, "   11 │ b\n"),
        _ => panic!("removed row expected"),
    }
    match &outs[6] {
        Some(SplitRow::Added(r)) => assert_eq!(r, "   11 │ c\n"),
        _ => panic!("added row expected"),
    }
    match &outs[4] {
        Some(SplitRow::Both(a, b)) => {
            assert_eq!(a, "   10 │ a\n");
            assert_eq!(b, "   10 │ a\n");
        }
        _ => panic!("context row expected"),
    }
    let mut state = PatchState::new();
    for l in ["@@ -1 +1 @@"] {
        patch_step(&mut state, l, true, &folded);
    }
    assert!(patch_step(&mut state, "", true, &folded).split.is_none());
}

#[test]
fn hunk_range_parsing_falls_back_to_zero() {
    let mut state = PatchState::new();
    let folded = FoldSet::new();
    patch_step(&mut state, "@@ -x,1 +7 @@", true, &folded);
    assert_eq!((state.old, state.new), (0, 7));
    patch_step(&mut state, "@@ --5 ++6,2", true, &folded);
    assert_eq!((state.old, state.new), (5, 6));
    patch_step(&mut state, "@@ ", true, &folded);
    assert_eq!((state.old, state.new), (0, 0));
}

#[test]
fn hunk_navigation_wraps() {
    assert_eq!(hunk_step(0, -1, 3), 2);
    assert_eq!(hunk_step(2, 1, 3), 0);
    assert_eq!(hunk_step(1, 1, 3), 2);
    assert_eq!(hunk_step(u32::MAX, 1, 3), 0);
    assert_eq!(hunk_step(u32::MAX, -1, 3), 1);
    assert_eq!(hunk_step(7, 1, 3), 2);
    assert_eq!(fold_label(true), "Reveal");
    assert_eq!(fold_label(false), "Collapse");
}
