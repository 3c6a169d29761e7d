//! The logic of the Oxide terminal.
pub mod banner;
pub mod bytes;
pub mod changelog;
pub mod cli;
pub mod config;
pub mod editor;
pub mod focus;
pub mod git;
pub mod keymap;
pub mod line_edit;
pub mod markdown;
pub mod menus;
pub mod notifications;
pub mod overlay;
pub mod palette;
pub mod panes;
pub mod path;
pub mod prompt;
pub mod resizing;
pub mod saved;
pub mod startup;
pub mod status;
pub mod terminal;
pub mod text;
pub mod update;
pub mod workspaces;
