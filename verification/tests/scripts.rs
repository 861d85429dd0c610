use qfind::native::{exportable, exported_flag, exported_id, status_code, CallOutcome};
use qfind::scripts::{executable_mode, script_action, script_context, script_label};
use qfind::surface::{chart_path, chart_tiles};

#[test]
fn scripts_are_labelled_by_stem() {
    assert_eq!(script_label("/s/open_in-terminal.sh"), "open in terminal");
    assert_eq!(script_label("/s/Plain"), "Plain");
    assert_eq!(script_label("/"), "");
}

#[test]
fn execute_bits() {
    assert!(executable_mode(0o100755));
    assert!(executable_mode(0o100001));
    assert!(!executable_mode(0o100644));
}

#[test]
fn script_actions_and_context() {
    assert_eq!(script_action(3), "win.external-3");
    assert_eq!(
        script_context("/home/u/a.txt"),
        ("/home/u".to_string(), "/home/u/a.txt\n".to_string())
    );
    assert_eq!(script_context("/"), (String::new(), "/\n".to_string()));
}

#[test]
fn native_status_and_rows() {
    assert_eq!(status_code(CallOutcome::Done), 0);
    assert_eq!(status_code(CallOutcome::NoManager), -1);
    assert_eq!(status_code(CallOutcome::Failed), -2);
    assert_eq!(status_code(CallOutcome::Panicked), -3);
    assert_eq!(exported_id(Some(7)), 7);
    assert_eq!(exported_id(None), u32::MAX);
    assert_eq!(exported_flag(true), 1);
    assert_eq!(exported_flag(false), 0);
    assert!(exportable("a", "/a"));
    assert!(!exportable("a\0b", "/a"));
    assert!(!exportable("a", "/a\0"));
}

#[test]
fn chart_keeps_the_heaviest() {
    assert_eq!(chart_tiles(&vec![5, 9, 5, 1]), vec![1, 0, 2, 3]);
    let many: Vec<u64> = (0..450).map(|i| i as u64).collect();
    let tiles = chart_tiles(&many);
    assert_eq!(tiles.len(), 400);
    assert_eq!(tiles[0], 449);
    assert_eq!(tiles[399], 50);
}

#[test]
fn chart_paths_are_scoped() {
    assert_eq!(chart_path("/home/u/a/b", Some("/home/u")), Some("a/b".to_string()));
    assert_eq!(chart_path("/etc/x", Some("/home/u")), None);
    assert_eq!(chart_path("/home/u", Some("/home/u")), None);
    assert_eq!(chart_path("/x", None), Some("/x".to_string()));
}
