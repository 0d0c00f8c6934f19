//! Flatten a source tree into one annotated text file.
//!
//! The library scans a directory tree (modelled as plain data), selects files
//! by extension, accounts every outcome in a [`types::SquishResult`], frames
//! each selected file's content between a header line and two blank lines,
//! and resolves an output location through an ordered fallback chain.

pub mod cli;
pub mod errors;
pub mod filesystem;
pub mod scanner;
pub mod squish;
pub mod types;
