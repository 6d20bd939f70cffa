//! The container-writing stage.

pub mod boxes;
pub mod content;
pub mod decode;
pub mod error;
pub mod fmp4;
pub mod fourcc;
pub mod fragment;
pub mod layout;
pub mod movie;
pub mod nal;
pub mod opening;
pub mod pacing;
pub mod parameters;
pub mod placement;
pub mod playback;
pub mod reader;
pub mod roundtrip;
pub mod runs;
pub mod tables;
pub mod timeline;
pub mod timing;
pub mod track;
