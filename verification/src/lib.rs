//! A personal diary: short dated entries with a title, free text and keyword
//! tags, kept in one table, which can be listed, searched, hidden and shown
//! again.
//!
//! The table, its search and its console rendering are verified; reading and
//! writing the database file is left to the program around this library.

pub mod clock;
pub mod diary;
pub mod digest;
pub mod display;
pub mod entry;
pub mod error;
pub mod ids;
pub mod input;
pub mod keywords;
pub mod lists;
pub mod location;
pub mod paint;
pub mod search;
pub mod text;

pub use crate::diary::Diary;
pub use crate::display::DisplayOptions;
pub use crate::entry::Entry;
pub use crate::error::StoreError;
