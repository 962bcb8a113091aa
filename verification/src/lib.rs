//! Verified core of `scout`, a local network discovery and TCP probing tool.

pub mod text;
pub mod types;
pub mod fingerprint;
pub mod banner;
pub mod ttl;
pub mod scope;
pub mod limits;
pub mod live;
pub mod inspect;
pub mod target;
pub mod format;
pub mod discover;
pub mod tui;
pub mod ui;
pub mod tables;
pub mod cli;
pub mod laws;
