//! Audio track kinds and capture devices.

use vstd::prelude::*;

verus! {

/// What an audio track holds.
#[derive(Debug, Clone, Copy, PartialEq, Eq, Structural)]
pub enum AudioTrackKind {
    /// Everything the default output device plays.
    Mix,
    /// The game.
    Game,
    /// Voice chat.
    VoiceChat,
    /// The rest of the system.
    OtherSystem,
    /// The microphone.
    Mic,
}

/// A capture device: its id, and the name that people know it by.
#[derive(Debug, Clone, PartialEq, Eq)]
pub struct AudioDevice {
    pub id: String,
    pub name: String,
}

} // verus!
