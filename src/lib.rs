//! A modal, line-oriented text editing engine: grapheme-aware rows, a
//! document of rows, a bounded undo history, a viewport with a sticky
//! cursor, a command-line interpreter and a line-scoped search.
pub mod text;
pub mod search;
pub mod file;
pub mod history;
pub mod viewport;
pub mod command;
pub mod editor;
pub mod highlight;
