//! A launcher index: entries for applications and settings shortcuts,
//! deduplicated on insertion, ranked against a search string, and ordered by
//! how often each entry has been launched.

pub mod entry;
pub mod text;
pub mod sorting;
pub mod index;
pub mod matcher;
pub mod manager;
pub mod calculator;
pub mod settings;
pub mod usage;
pub mod cache;
pub mod discovery;
pub mod wide;
pub mod placement;
pub mod menu;
