//! Search-and-replace over the lines of a file: which lines change, how they
//! read before and after, and how the file reads once the changes are made.

pub mod commands;
pub mod file_changes;
pub mod file_io;
pub mod highlight;
pub mod pattern;
pub mod text;

pub use commands::UserInput;
