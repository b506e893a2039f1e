//! Interactive comparison browser: modes, preview cache, file list, panels, and state.

pub mod cache;
pub mod entries;
pub mod layout;
pub mod modes;
pub mod panels;
pub mod state;
