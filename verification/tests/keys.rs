use qfind::keys::{
    History, key_action, location_changed, scope_after_find, search_placeholder, Key, KeyAction,
    KeyContext, SearchScope,
};

fn plain() -> KeyContext {
    KeyContext {
        ctrl: false,
        shift: false,
        alt: false,
        search_focus: false,
        preview_open: false,
        hovering: false,
        previewable: false,
        search_text: false,
    }
}

#[test]
fn alt_arrows_walk_history() {
    let c = KeyContext { alt: true, ..plain() };
    assert_eq!(key_action(Key::Left, c), KeyAction::Back);
    assert_eq!(key_action(Key::Right, c), KeyAction::Forward);
    assert_eq!(key_action(Key::Up, c), KeyAction::Parent);
    assert_eq!(key_action(Key::Left, plain()), KeyAction::Pass);
}

#[test]
fn space_previews() {
    let open = KeyContext { preview_open: true, search_focus: true, ..plain() };
    assert_eq!(key_action(Key::Space, open), KeyAction::ClosePreview);
    let typing = KeyContext { search_focus: true, previewable: true, ..plain() };
    assert_eq!(key_action(Key::Space, typing), KeyAction::Pass);
    let hovering = KeyContext { hovering: true, ..typing };
    assert_eq!(key_action(Key::KeypadSpace, hovering), KeyAction::OpenPreview);
    assert_eq!(key_action(Key::Space, plain()), KeyAction::Pass);
}

#[test]
fn escape_closes_then_clears() {
    let both = KeyContext { preview_open: true, search_text: true, ..plain() };
    assert_eq!(key_action(Key::Escape, both), KeyAction::ClosePreview);
    let text = KeyContext { search_text: true, ..plain() };
    assert_eq!(key_action(Key::Escape, text), KeyAction::ClearSearch);
    assert_eq!(key_action(Key::Escape, plain()), KeyAction::Pass);
}

#[test]
fn function_and_control_keys() {
    let ctrl = KeyContext { ctrl: true, ..plain() };
    assert_eq!(key_action(Key::F5, plain()), KeyAction::Refresh);
    assert_eq!(key_action(Key::F3, plain()), KeyAction::TogglePreview);
    assert_eq!(key_action(Key::Down, KeyContext { search_focus: true, ..plain() }), KeyAction::FocusList);
    assert_eq!(key_action(Key::Down, plain()), KeyAction::Pass);
    assert_eq!(key_action(Key::Find, ctrl), KeyAction::ScopeSearch { everywhere: false });
    assert_eq!(
        key_action(Key::Find, KeyContext { shift: true, ..ctrl }),
        KeyAction::ScopeSearch { everywhere: true }
    );
    assert_eq!(key_action(Key::Find, plain()), KeyAction::Pass);
    assert_eq!(key_action(Key::Location, ctrl), KeyAction::FocusLocation);
    assert_eq!(key_action(Key::Search, ctrl), KeyAction::FocusSearch);
    assert_eq!(key_action(Key::Plus, plain()), KeyAction::ZoomIn);
    assert_eq!(key_action(Key::Equal, ctrl), KeyAction::ZoomIn);
    assert_eq!(key_action(Key::Minus, plain()), KeyAction::ZoomOut);
    assert_eq!(key_action(Key::Return, ctrl), KeyAction::Reveal);
    assert_eq!(key_action(Key::Return, plain()), KeyAction::Pass);
}

#[test]
fn copy_and_menu() {
    let ctrl = KeyContext { ctrl: true, ..plain() };
    assert_eq!(key_action(Key::Copy, ctrl), KeyAction::CopySelection { name: false });
    assert_eq!(
        key_action(Key::Copy, KeyContext { shift: true, ..ctrl }),
        KeyAction::CopySelection { name: true }
    );
    assert_eq!(key_action(Key::Copy, KeyContext { search_focus: true, ..ctrl }), KeyAction::Pass);
    assert_eq!(key_action(Key::Menu, plain()), KeyAction::PopupMenu);
    assert_eq!(key_action(Key::F10, KeyContext { shift: true, ..plain() }), KeyAction::PopupMenu);
    assert_eq!(key_action(Key::F10, plain()), KeyAction::Pass);
    assert_eq!(key_action(Key::Other, ctrl), KeyAction::Pass);
}

#[test]
fn find_scope_and_placeholder() {
    assert_eq!(scope_after_find(false, true), SearchScope::Directory);
    assert_eq!(scope_after_find(false, false), SearchScope::Global);
    assert_eq!(scope_after_find(true, true), SearchScope::Global);
    assert_eq!(search_placeholder(SearchScope::Directory, Some("/home/u")), "Search in /home/u…");
    assert_eq!(search_placeholder(SearchScope::Directory, None), "Search files…");
    assert_eq!(search_placeholder(SearchScope::Global, Some("/x")), "Search everywhere…");
}

#[test]
fn revisits_change_only_when_needed() {
    assert!(location_changed(false, true, SearchScope::Directory));
    assert!(!location_changed(true, true, SearchScope::Directory));
    assert!(location_changed(true, false, SearchScope::Directory));
    assert!(location_changed(true, true, SearchScope::Global));
}

#[test]
fn history_walks_back_and_forward() {
    let mut h = History::new();
    assert!(!h.can_back() && !h.can_forward());
    assert_eq!(h.back(), None);
    h.visit("/a");
    h.visit("/b");
    h.visit("/c");
    assert_eq!(h.current(), Some("/c"));
    assert_eq!(h.back(), Some("/b".to_string()));
    assert_eq!(h.back(), Some("/a".to_string()));
    assert!(!h.can_back());
    assert_eq!(h.forward(), Some("/b".to_string()));
    assert!(h.can_forward());
    h.visit("/d");
    assert!(!h.can_forward());
    assert_eq!(h.back(), Some("/b".to_string()));
    assert_eq!(h.current(), Some("/b"));
}
