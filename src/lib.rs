//! Snapshot of a directory tree as one text document: an indented listing of
//! the tree followed by the contents of every file that is not filtered out.

pub mod cli;
pub mod path;
pub mod pattern;
pub mod filter;
pub mod walk;
pub mod document;
pub mod laws;
