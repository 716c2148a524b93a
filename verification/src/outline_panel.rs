//! The panel that lists the files of an editor with their outlines or search
//! matches.

pub mod activity;
pub mod cached;
pub mod entries;
pub mod entry_paths;
pub mod event_laws;
pub mod events;
pub mod filter;
pub mod fs_gather;
pub mod fs_laws;
pub mod fs_update;
pub mod gather_laws;
pub mod labels;
pub mod location;
pub mod panel;
pub mod panel_laws;
pub mod place_laws;
pub mod search;
pub mod selection;
pub mod toggle_all;
pub mod toggling;
pub mod view;
pub mod view_laws;
pub mod walk;
pub mod walk_laws;
