//! Runs a list of diagnostic commands and shows each result in its own tab.
//!
//! The crate holds the parts that decide something: how a command line is
//! read, what becomes of a command's captured output, in which order results
//! are gathered, and how the tab selection moves.

pub mod availability;
pub mod engine;
pub mod executor;
pub mod report;
pub mod source;
pub mod text;
pub mod tabs;
pub mod unit;
