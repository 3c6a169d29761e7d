//! Actions, their keys, and the user's own bindings.
pub mod actions;
pub mod default;
pub mod keystroke;
pub mod registry;
pub mod resolve;
