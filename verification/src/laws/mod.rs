//! What holds of the editor's operations, whatever the editor holds.

pub mod clock;
pub mod dired;
pub mod drawing;
pub mod editing;
pub mod files;
pub mod frame;
pub mod highlighting;
pub mod keys;
pub mod killing;
pub mod listing;
pub mod marking;
pub mod motion;
pub mod outcomes;
pub mod output;
pub mod pointing;
pub mod processes;
pub mod prompts;
pub mod rectangle;
pub mod renaming;
pub mod replace;
pub mod scripting;
pub mod searching;
pub mod table;
pub mod terminal;
pub mod undoing;
pub mod windows;
