//! The interactive digest pane, without the terminal.
//!
//! [`state`] is the state machine, [`view`] decides what is shown where, and
//! [`drive`] turns events and results into the next state.

pub mod drive;
pub mod state;
pub mod view;
