pub mod archive;
pub mod assoc;
pub mod buffer;
pub mod buffers;
pub mod bytes;
pub mod calendar;
pub mod columns;
pub mod commands;
pub mod dired;
pub mod dispatch;
pub mod editor;
pub mod faces;
pub mod input;
pub mod keyloop;
pub mod keymap;
pub mod keys;
pub mod killring;
pub mod laws;
pub mod layout;
pub mod lines;
pub mod minibuffer;
pub mod mouse;
pub mod native;
pub mod order;
pub mod paths;
pub mod process;
pub mod ready;
pub mod rect;
pub mod regexes;
pub mod render;
pub mod rope;
pub mod script;
pub mod search;
pub mod seqs;
pub mod stream;
pub mod strings;
pub mod treesit;
pub mod undo;
pub mod value;
pub mod window;
