//! The window's keyboard shortcuts: which action a key press asks for, and
//! the search box's placeholder for the scope it searches.

use vstd::prelude::*;

use crate::text::{owned, push_text};

verus! {

/// The keys the window reacts to; every other key is `Other`.
#[derive(Clone, Copy, PartialEq, Eq, Structural, Debug)]
pub enum Key {
    Left,
    Right,
    Up,
    Down,
    Space,
    KeypadSpace,
    Escape,
    F3,
    F5,
    F10,
    /// The letter `f`.
    Find,
    /// The letter `l`.
    Location,
    /// The letter `k`.
    Search,
    Plus,
    Equal,
    Minus,
    Return,
    /// The letter `c`, lower or upper case.
    Copy,
    Menu,
    Other,
}

/// What the window knows when a key is pressed.
#[derive(Clone, Copy, PartialEq, Eq, Structural, Debug)]
pub struct KeyContext {
    pub ctrl: bool,
    pub shift: bool,
    pub alt: bool,
    /// The keyboard focus is inside the search box.
    pub search_focus: bool,
    /// A preview window is open.
    pub preview_open: bool,
    /// The pointer rests on a row.
    pub hovering: bool,
    /// There is a path to preview (hovered or selected, as the preview
    /// mode says).
    pub previewable: bool,
    /// The search box holds text.
    pub search_text: bool,
}

/// What a key press asks of the window.
#[derive(Clone, Copy, PartialEq, Eq, Structural, Debug)]
pub enum KeyAction {
    /// Back in the location history.
    Back,
    /// Forward in the location history.
    Forward,
    /// To the parent folder.
    Parent,
    ClosePreview,
    OpenPreview,
    /// Empty the search box and focus it.
    ClearSearch,
    Refresh,
    TogglePreview,
    FocusList,
    /// Search the current folder (or everywhere without one), or
    /// everywhere when `everywhere`.
    ScopeSearch { everywhere: bool },
    FocusLocation,
    FocusSearch,
    ZoomIn,
    ZoomOut,
    /// Show the selected row in its folder.
    Reveal,
    /// Copy the selected row's name (`name`) or path.
    CopySelection { name: bool },
    PopupMenu,
    /// Not handled here: the key goes on to the focused widget.
    Pass,
}

/// The action of a key press, in the order the window tests them: history
/// and parent with Alt; Space for the preview; Escape; F5; F3; Down from
/// the search box; Ctrl+F, Ctrl+L, Ctrl+K; zoom keys; Ctrl+Return;
/// Ctrl+C outside the search box; Menu or Shift+F10.
pub open spec fn key_action_of(key: Key, c: KeyContext) -> KeyAction {
    if c.alt && key == Key::Left {
        KeyAction::Back
    } else if c.alt && key == Key::Right {
        KeyAction::Forward
    } else if c.alt && key == Key::Up {
        KeyAction::Parent
    } else if key == Key::Space || key == Key::KeypadSpace {
        if c.preview_open {
            KeyAction::ClosePreview
        } else if c.search_focus && !c.hovering {
            KeyAction::Pass
        } else if c.previewable {
            KeyAction::OpenPreview
        } else {
            KeyAction::Pass
        }
    } else if key == Key::Escape {
        if c.preview_open {
            KeyAction::ClosePreview
        } else if c.search_text {
            KeyAction::ClearSearch
        } else {
            KeyAction::Pass
        }
    } else if key == Key::F5 {
        KeyAction::Refresh
    } else if key == Key::F3 {
        KeyAction::TogglePreview
    } else if key == Key::Down && c.search_focus {
        KeyAction::FocusList
    } else if key == Key::Find && c.ctrl {
        KeyAction::ScopeSearch { everywhere: c.shift }
    } else if key == Key::Location && c.ctrl {
        KeyAction::FocusLocation
    } else if key == Key::Search && c.ctrl {
        KeyAction::FocusSearch
    } else if key == Key::Plus || key == Key::Equal {
        KeyAction::ZoomIn
    } else if key == Key::Minus {
        KeyAction::ZoomOut
    } else if key == Key::Return && c.ctrl {
        KeyAction::Reveal
    } else if key == Key::Copy && c.ctrl && !c.search_focus {
        KeyAction::CopySelection { name: c.shift }
    } else if key == Key::Menu || (key == Key::F10 && c.shift) {
        KeyAction::PopupMenu
    } else {
        KeyAction::Pass
    }
}

/// The action a key press asks for (see `key_action_of`).
pub fn key_action(key: Key, c: KeyContext) -> (r: KeyAction)
    ensures
        r == key_action_of(key, c),
{
    if c.alt && key == Key::Left {
        return KeyAction::Back;
    }
    if c.alt && key == Key::Right {
        return KeyAction::Forward;
    }
    if c.alt && key == Key::Up {
        return KeyAction::Parent;
    }
    if key == Key::Space || key == Key::KeypadSpace {
        if c.preview_open {
            return KeyAction::ClosePreview;
        }
        if c.search_focus && !c.hovering {
            return KeyAction::Pass;
        }
        if c.previewable {
            return KeyAction::OpenPreview;
        }
        return KeyAction::Pass;
    }
    if key == Key::Escape {
        if c.preview_open {
            return KeyAction::ClosePreview;
        }
        if c.search_text {
            return KeyAction::ClearSearch;
        }
        return KeyAction::Pass;
    }
    if key == Key::F5 {
        return KeyAction::Refresh;
    }
    if key == Key::F3 {
        return KeyAction::TogglePreview;
    }
    if key == Key::Down && c.search_focus {
        return KeyAction::FocusList;
    }
    if key == Key::Find && c.ctrl {
        return KeyAction::ScopeSearch { everywhere: c.shift };
    }
    if key == Key::Location && c.ctrl {
        return KeyAction::FocusLocation;
    }
    if key == Key::Search && c.ctrl {
        return KeyAction::FocusSearch;
    }
    if key == Key::Plus || key == Key::Equal {
        return KeyAction::ZoomIn;
    }
    if key == Key::Minus {
        return KeyAction::ZoomOut;
    }
    if key == Key::Return && c.ctrl {
        return KeyAction::Reveal;
    }
    if key == Key::Copy && c.ctrl && !c.search_focus {
        return KeyAction::CopySelection { name: c.shift };
    }
    if key == Key::Menu || (key == Key::F10 && c.shift) {
        return KeyAction::PopupMenu;
    }
    KeyAction::Pass
}

/// Where a search looks: the browsed folder or the whole catalog.
#[derive(Clone, Copy, PartialEq, Eq, Structural, Debug)]
pub enum SearchScope {
    Directory,
    Global,
}

/// The scope Ctrl+F sets: everywhere with Shift or without a browsed
/// folder, else the folder.
pub fn scope_after_find(everywhere: bool, has_directory: bool) -> (r: SearchScope)
    ensures
        r == (if !everywhere && has_directory {
            SearchScope::Directory
        } else {
            SearchScope::Global
        }),
{
    if !everywhere && has_directory {
        SearchScope::Directory
    } else {
        SearchScope::Global
    }
}

/// The search box's placeholder: `Search in <folder>…` for a folder
/// search, `Search files…` for a folder search with no folder, and
/// `Search everywhere…` otherwise.
pub open spec fn placeholder_of(scope: SearchScope, directory: Option<Seq<char>>) -> Seq<char> {
    match scope {
        SearchScope::Directory => match directory {
            Some(d) => "Search in "@ + d + "…"@,
            None => "Search files…"@,
        },
        SearchScope::Global => "Search everywhere…"@,
    }
}

/// The search box's placeholder (see `placeholder_of`).
pub fn search_placeholder(scope: SearchScope, directory: Option<&str>) -> (r: String)
    ensures
        r@ == placeholder_of(
            scope,
            match directory {
                Some(d) => Some(d@),
                None => None,
            },
        ),
{
    match scope {
        SearchScope::Directory => match directory {
            Some(d) => {
                let mut s = owned("Search in ");
                push_text(&mut s, d);
                push_text(&mut s, "…");
                s
            },
            None => owned("Search files…"),
        },
        SearchScope::Global => owned("Search everywhere…"),
    }
}

/// Whether moving to a folder changes what the window shows: a history
/// step always does; a fresh visit does unless the window already browses
/// that folder with a folder search.
pub fn location_changed(remember: bool, same_directory: bool, scope: SearchScope) -> (r: bool)
    ensures
        r == (!remember || !same_directory || scope != SearchScope::Directory),
{
    !remember || !same_directory || scope != SearchScope::Directory
}

/// The locations visited, as Back and Forward walk them.
pub struct History {
    back: Vec<String>,
    current: Option<String>,
    forward: Vec<String>,
}

/// What a history holds: the locations behind, the current one, and the
/// locations ahead (the nearest last in both lists).
pub struct HistoryView {
    pub back: Seq<Seq<char>>,
    pub current: Option<Seq<char>>,
    pub forward: Seq<Seq<char>>,
}

impl View for History {
    type V = HistoryView;

    closed spec fn view(&self) -> HistoryView {
        HistoryView {
            back: self.back@.map_values(|s: String| s@),
            current: match self.current {
                Some(c) => Some(c@),
                None => None,
            },
            forward: self.forward@.map_values(|s: String| s@),
        }
    }
}

impl History {
    /// A history with nothing visited.
    pub fn new() -> (r: Self)
        ensures
            r@.back.len() == 0,
            r@.current is None,
            r@.forward.len() == 0,
    {
        History { back: Vec::new(), current: None, forward: Vec::new() }
    }

    /// Visits `path`: the current location goes behind, and what was ahead
    /// is dropped.
    pub fn visit(&mut self, path: &str)
        ensures
            final(self)@.back == match old(self)@.current {
                Some(c) => old(self)@.back.push(c),
                None => old(self)@.back,
            },
            final(self)@.current == Some(path@),
            final(self)@.forward.len() == 0,
    {
        let previous = self.current.take();
        match previous {
            Some(c) => {
                let ghost before = self.back@.map_values(|s: String| s@);
                let ghost cv = c@;
                self.back.push(c);
                assert(self.back@.map_values(|s: String| s@) == before.push(cv));
            },
            None => {},
        }
        self.current = Some(owned(path));
        self.forward = Vec::new();
    }

    /// Steps back: the nearest location behind becomes current and the
    /// current one goes ahead; `None`, with nothing changed, when nothing
    /// is behind.
    pub fn back(&mut self) -> (r: Option<String>)
        ensures
            old(self)@.back.len() == 0 ==> r is None && final(self)@ == old(self)@,
            old(self)@.back.len() > 0 ==> {
                &&& r matches Some(p) && p@ == old(self)@.back.last()
                &&& final(self)@.back == old(self)@.back.drop_last()
                &&& final(self)@.current == Some(old(self)@.back.last())
                &&& final(self)@.forward == match old(self)@.current {
                    Some(c) => old(self)@.forward.push(c),
                    None => old(self)@.forward,
                }
            },
    {
        let ghost before_back = self.back@.map_values(|s: String| s@);
        match self.back.pop() {
            None => None,
            Some(target) => {
                assert(self.back@.map_values(|s: String| s@) == before_back.drop_last());
                let previous = self.current.take();
                match previous {
                    Some(c) => {
                        let ghost before = self.forward@.map_values(|s: String| s@);
                        let ghost cv = c@;
                        self.forward.push(c);
                        assert(self.forward@.map_values(|s: String| s@) == before.push(cv));
                    },
                    None => {},
                }
                let r = owned(target.as_str());
                self.current = Some(target);
                Some(r)
            },
        }
    }

    /// Steps forward: the nearest location ahead becomes current and the
    /// current one goes behind; `None`, with nothing changed, when nothing
    /// is ahead.
    pub fn forward(&mut self) -> (r: Option<String>)
        ensures
            old(self)@.forward.len() == 0 ==> r is None && final(self)@ == old(self)@,
            old(self)@.forward.len() > 0 ==> {
                &&& r matches Some(p) && p@ == old(self)@.forward.last()
                &&& final(self)@.forward == old(self)@.forward.drop_last()
                &&& final(self)@.current == Some(old(self)@.forward.last())
                &&& final(self)@.back == match old(self)@.current {
                    Some(c) => old(self)@.back.push(c),
                    None => old(self)@.back,
                }
            },
    {
        let ghost before_forward = self.forward@.map_values(|s: String| s@);
        match self.forward.pop() {
            None => None,
            Some(target) => {
                assert(self.forward@.map_values(|s: String| s@) == before_forward.drop_last());
                let previous = self.current.take();
                match previous {
                    Some(c) => {
                        let ghost before = self.back@.map_values(|s: String| s@);
                        let ghost cv = c@;
                        self.back.push(c);
                        assert(self.back@.map_values(|s: String| s@) == before.push(cv));
                    },
                    None => {},
                }
                let r = owned(target.as_str());
                self.current = Some(target);
                Some(r)
            },
        }
    }

    /// Whether Back has somewhere to go.
    pub fn can_back(&self) -> (r: bool)
        ensures
            r == (self@.back.len() > 0),
    {
        self.back.len() > 0
    }

    /// Whether Forward has somewhere to go.
    pub fn can_forward(&self) -> (r: bool)
        ensures
            r == (self@.forward.len() > 0),
    {
        self.forward.len() > 0
    }

    /// The current location.
    pub fn current(&self) -> (r: Option<&str>)
        ensures
            match r {
                Some(c) => self@.current == Some(c@),
                None => self@.current is None,
            },
    {
        match &self.current {
            Some(c) => Some(c.as_str()),
            None => None,
        }
    }
}

/// Back then Forward returns to where one was: the same locations behind,
/// current and ahead.
pub proof fn back_then_forward(h: HistoryView)
    requires
        h.back.len() > 0,
        h.current is Some,
    ensures
        ({
            let after_back = HistoryView {
                back: h.back.drop_last(),
                current: Some(h.back.last()),
                forward: h.forward.push(h.current->0),
            };
            let after_forward = HistoryView {
                back: after_back.back.push(after_back.current->0),
                current: Some(after_back.forward.last()),
                forward: after_back.forward.drop_last(),
            };
            after_forward == h
        }),
{
    assert(h.back.drop_last().push(h.back.last()) == h.back);
    assert(h.forward.push(h.current->0).drop_last() == h.forward);
}

/// While a preview is open, Escape and Space (either space key) close it,
/// whatever else holds.
pub proof fn open_preview_closes(c: KeyContext)
    requires
        c.preview_open,
    ensures
        key_action_of(Key::Escape, c) == KeyAction::ClosePreview,
        key_action_of(Key::Space, c) == KeyAction::ClosePreview,
        key_action_of(Key::KeypadSpace, c) == KeyAction::ClosePreview,
{
}

} // verus!
