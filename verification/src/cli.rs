//! The command line: what it asks for, and what a run is set up with.

pub mod args;
pub mod options;
pub mod plan;
