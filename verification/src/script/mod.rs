//! What the extension language can ask of the editor. Each function takes a
//! short-lived borrow of the editor and plain values; the interpreter itself
//! stays with the caller.

pub mod config;
pub mod help;
pub mod named;
pub mod prompts;
pub mod records;
pub mod text;
pub mod texts;
