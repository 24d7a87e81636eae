//! Core logic of a multi-pane terminal emulator: key chords and their
//! bindings, broadcast routing, key encoding, retro eras and the scanner
//! for their escape sequence, glyph pixels and font choice, configuration
//! values, per-pane session state and activity, the command line, and the small text
//! utilities they share.

pub mod activity;
pub mod bindings;
pub mod cli;
pub mod config;
pub mod era;
pub mod glyph;
pub mod keys;
pub mod keymap;
pub mod layout;
pub mod process;
pub mod retro;
pub mod router;
pub mod session;
pub mod text;
