//! What can be wrong with a stream.

use vstd::prelude::*;

verus! {

/// A stream that cannot be muxed.
#[derive(Debug, Clone, Copy)]
pub enum MuxError {
    /// The stream breaks a rule of its format.
    InvalidStream(&'static str),
}

/// The sequence header holds no sequence parameter set.
pub const NO_SPS: &'static str = "sequence header has no SPS";

/// The sequence header holds no picture parameter set.
pub const NO_PPS: &'static str = "sequence header has no PPS";

/// The sequence parameter set is too short to hold profile and level.
pub const SHORT_SPS: &'static str = "SPS too short for avcC";

impl MuxError {
    /// What the error says.
    pub open spec fn text(self) -> Seq<char> {
        match self {
            MuxError::InvalidStream(why) => why@,
        }
    }
}

} // verus!
