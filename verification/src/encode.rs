//! Encoded packets, as the encoders hand them on.

use std::sync::Arc;

use vstd::prelude::*;

use crate::audio::AudioTrackKind;

verus! {

/// One encoded video access unit. Its bytes are shared, so keeping a packet copies a handle.
#[derive(Debug)]
pub struct EncodedPacket {
    /// The access unit, in Annex-B form.
    pub data: Arc<[u8]>,
    /// Presentation time, in ticks.
    pub pts: i64,
    /// Duration, in ticks.
    pub duration: i64,
    /// Whether decoding can start here.
    pub is_keyframe: bool,
    /// The run of the capture pipeline that made the packet.
    pub epoch_id: u32,
}

/// One encoded AAC access unit.
#[derive(Debug)]
pub struct EncodedAudioPacket {
    /// The track that the unit belongs to.
    pub stream: AudioTrackKind,
    /// The raw access unit.
    pub data: Arc<[u8]>,
    /// Presentation time, in ticks.
    pub pts: i64,
    /// Duration, in ticks.
    pub duration: i64,
}

/// `<Arc<[u8]> as Clone>::clone`: a second handle on the same bytes.
#[verifier::external_body]
fn share(data: &Arc<[u8]>) -> (r: Arc<[u8]>)
    ensures
        r == *data,
{
    data.clone()
}

impl Clone for EncodedPacket {
    fn clone(&self) -> (r: Self)
        ensures
            r == *self,
    {
        EncodedPacket {
            data: share(&self.data),
            pts: self.pts,
            duration: self.duration,
            is_keyframe: self.is_keyframe,
            epoch_id: self.epoch_id,
        }
    }
}

impl Clone for EncodedAudioPacket {
    fn clone(&self) -> (r: Self)
        ensures
            r == *self,
    {
        EncodedAudioPacket {
            stream: self.stream,
            data: share(&self.data),
            pts: self.pts,
            duration: self.duration,
        }
    }
}

} // verus!
