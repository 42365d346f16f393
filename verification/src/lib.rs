//! `mtrm`: a terminal workspace manager.
//!
//! The verified library holds the identifiers and commands of the program,
//! the split layout of a tab with its geometry and persistence form, the
//! keymap and key-event mapping, the session snapshot and its validation,
//! the tab manager bookkeeping, the terminal screen history, and the pure
//! helpers of the command line, the UI and the shell process handling.

pub mod base;
pub mod layout;
pub mod geometry;
pub mod placement;
pub mod resize;
pub mod snapshot;
pub mod session;
pub mod text;
pub mod errors;
pub mod clipboard;
pub mod config;
pub mod ui;
pub mod cli;
pub mod rename;
pub mod selection;
pub mod tabs;
pub mod keys;
pub mod platform_keys;
pub mod keymap;
pub mod input;
pub mod escape;
pub mod screen;
pub mod help;
pub mod commands;
pub mod frame;
pub mod shell;
pub mod consistency;
pub mod procstat;
