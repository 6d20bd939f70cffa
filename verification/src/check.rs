//! Whether a saved clip is as it should be.

pub mod laws;
pub mod listing;
pub mod micros;
pub mod report;
pub mod streams;
pub mod timing;
