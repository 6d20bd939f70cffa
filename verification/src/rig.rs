//! How far sound and picture are apart in a recording of flashes and clicks.

pub mod analysis;
pub mod generator;
pub mod laws;
pub mod measure;
pub mod recording;
