//! Saving a clip: which packets belong to it, and the file they make.

pub mod clip;
pub mod contents;
pub mod feed;
pub mod laws;
pub mod order;
pub mod selection;
pub mod window;
