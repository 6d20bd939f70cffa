//! Replay-buffer clipping: the packet ring, the save window, the MP4 muxer and
//! the decisions of the program around them.

pub mod appfolder;
pub mod audio;
pub mod bytes;
pub mod check;
pub mod cli;
pub mod config;
pub mod constants;
pub mod encode;
pub mod engine;
pub mod gpu;
pub mod hotkey;
pub mod logging;
pub mod mux;
pub mod probe;
pub mod reading;
pub mod rig;
pub mod ring;
pub mod save;
pub mod seqs;
pub mod status;
pub mod text;
pub mod ui;
pub mod watchdog;
pub mod wide;
