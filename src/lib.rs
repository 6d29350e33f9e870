//! A personal task list kept as one line per task in a text file.
//!
//! The library holds the logic: the line codec, the reading of a file's
//! contents into lines, and the store operations, each of which computes the
//! file contents (or the file steps) that the host then carries out.
pub mod text;
pub mod entry;
pub mod store;
pub mod cli;
