//! Verified core of the Qfind file finder: text rendering, ordering,
//! matching, diffing and the small decisions behind the GTK surface.

pub mod text;
pub mod order;
pub mod paths;
pub mod search;
pub mod diff;
pub mod format;
pub mod row;
pub mod columns;
pub mod lines;
pub mod layout;
pub mod surface;
pub mod actions;
pub mod projects;
pub mod storage;
pub mod settings;
pub mod places;
pub mod portal;
pub mod model;
pub mod icons;
pub mod sizes;
pub mod shaders;
pub mod window;
pub mod patch;
pub mod git_actions;
pub mod keys;
pub mod manager;
pub mod cleanup;
pub mod workspace;
pub mod checkouts;
pub mod scripts;
pub mod native;
pub mod changes;
