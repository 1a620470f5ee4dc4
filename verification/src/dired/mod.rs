//! Dired: a directory listing rendered into a read-only buffer, with a
//! buffer-local keymap. Lines map one to one to entries; line 0 is the header.

pub mod state;
pub mod listing;
pub mod ops;
pub mod files;
pub mod wgrep;
