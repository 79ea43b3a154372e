//! Verified core of a desktop launcher: release-update decisions, clipboard
//! history items and how they are stored, and window tiling positions.

pub mod autoupdate;
pub mod clipboard;
pub mod database;
pub mod json;
pub mod text;
pub mod window;
