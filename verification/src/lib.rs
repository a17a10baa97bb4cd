//! A digest of what happened in a set of git checkouts over a window of time.

pub mod by_agent;
pub mod cache;
pub mod clock;
pub mod compare;
pub mod config;
pub mod git;
pub mod herdr;
pub mod model;
pub mod order;
pub mod paths;
pub mod placing;
pub mod render;
pub mod rollup;
pub mod standup;
pub mod state_file;
pub mod strings;
pub mod tui;
pub mod window;
