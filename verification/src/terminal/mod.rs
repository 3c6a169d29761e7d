//! The terminal pane: what the shell says, what the user types, and what is
//! shown.
pub mod click;
pub mod colors;
pub mod commands;
pub mod event_loop;
pub mod grid;
pub mod keys;
pub mod launch;
pub mod osc;
pub mod pane;
pub mod process;
pub mod search;
pub mod session;
pub mod vi;
