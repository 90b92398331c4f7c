//! Core logic of LeveldbCat, a LevelDB viewer: byte and text formatting of
//! keys and values, JSON highlighting, text selection offsets, search over
//! parsed entries, CSV export and localized messages.

pub mod text;
pub mod format;
pub mod highlight;
pub mod selection;
pub mod config;
pub mod i18n;
pub mod reader;
pub mod browser;
pub mod scrollbars;
pub mod cli;
pub mod sort;
