//! A verified core for an interactive picker over the commands installed on `PATH`.
pub mod text;
pub mod matching;
pub mod paths;
pub mod help_cache;
pub mod app;
pub mod layout;
pub mod search;
pub mod cursor;
pub mod catalog;
pub mod laws;
