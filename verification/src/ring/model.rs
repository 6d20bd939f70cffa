//! What a ring holds, and what its caps make of it.

use vstd::prelude::*;

use crate::constants::ring::AUDIO_EVICTION_SLACK_MS;
use crate::constants::units::TICKS_PER_MILLISECOND;
use crate::encode::{EncodedAudioPacket, EncodedPacket};

verus! {

/// How long audio is kept before the oldest video packet, in ticks.
pub open spec fn audio_slack() -> int {
    AUDIO_EVICTION_SLACK_MS * TICKS_PER_MILLISECOND
}

/// The bytes in some video packets.
pub open spec fn video_bytes(packets: Seq<EncodedPacket>) -> int
    decreases packets.len(),
{
    if packets.len() == 0 {
        0
    } else {
        packets[0].data@.len() + video_bytes(packets.skip(1))
    }
}

/// The bytes in some audio packets.
pub open spec fn audio_bytes(packets: Seq<EncodedAudioPacket>) -> int
    decreases packets.len(),
{
    if packets.len() == 0 {
        0
    } else {
        packets[0].data@.len() + audio_bytes(packets.skip(1))
    }
}

/// The bytes in the first `n` audio tracks.
pub open spec fn tracks_bytes(tracks: Seq<Seq<EncodedAudioPacket>>, n: int) -> int
    decreases n,
{
    if n <= 0 {
        0
    } else {
        tracks_bytes(tracks, n - 1) + audio_bytes(tracks[n - 1])
    }
}

/// The time from the first packet's beginning to the last one's end.
pub open spec fn span(video: Seq<EncodedPacket>) -> int {
    if video.len() == 0 {
        0
    } else {
        video.last().pts + video.last().duration - video[0].pts
    }
}

/// The index of the first keyframe at `i` or later, or the length where there is none.
pub open spec fn keyframe_from(video: Seq<EncodedPacket>, i: int) -> int
    decreases video.len() - i,
{
    if i >= video.len() {
        video.len() as int
    } else if video[i].is_keyframe {
        i
    } else {
        keyframe_from(video, i + 1)
    }
}

/// The index of the first packet at `i` or later whose time is not before `threshold`, or the
/// length where there is none.
pub open spec fn kept_from(track: Seq<EncodedAudioPacket>, threshold: int, i: int) -> int
    decreases track.len() - i,
{
    if i >= track.len() {
        track.len() as int
    } else if track[i].pts >= threshold {
        i
    } else {
        kept_from(track, threshold, i + 1)
    }
}

/// A track without the leading packets that lie before `threshold`.
pub open spec fn trimmed(track: Seq<EncodedAudioPacket>, threshold: int) -> Seq<
    EncodedAudioPacket,
> {
    track.skip(kept_from(track, threshold, 0))
}

/// What a ring holds.
#[verifier::ext_equal]
pub struct RingView {
    /// The longest video duration to keep, in ticks.
    pub max_duration: int,
    /// The most bytes to keep.
    pub max_bytes: int,
    /// Video packets, oldest first.
    pub video: Seq<EncodedPacket>,
    /// The packets of each audio track, oldest first.
    pub audio: Seq<Seq<EncodedAudioPacket>>,
}

impl RingView {
    /// All bytes in the ring.
    pub open spec fn bytes(self) -> int {
        video_bytes(self.video) + tracks_bytes(self.audio, self.audio.len() as int)
    }

    /// Whether a cap is exceeded.
    pub open spec fn over_cap(self) -> bool {
        span(self.video) > self.max_duration || self.bytes() > self.max_bytes
    }

    /// Whether there is a keyframe behind the front packet: the leading group of pictures can go
    /// and another stays.
    pub open spec fn has_spare(self) -> bool {
        keyframe_from(self.video, 1) < self.video.len()
    }

    /// The ring without its leading group of pictures.
    pub open spec fn drop_gop(self) -> RingView {
        RingView { video: self.video.skip(keyframe_from(self.video, 1)), ..self }
    }

    /// The ring without the audio that lies too far before the oldest video packet. Without video
    /// nothing is dropped.
    pub open spec fn trim_audio(self) -> RingView {
        if self.video.len() == 0 {
            self
        } else {
            RingView {
                audio: self.audio.map_values(
                    |track: Seq<EncodedAudioPacket>|
                        trimmed(track, self.video[0].pts - audio_slack()),
                ),
                ..self
            }
        }
    }

    /// The ring within its caps: leading groups of pictures go, one by one and each with the audio
    /// before the next, while a cap is exceeded and another group is left.
    pub open spec fn enforced(self) -> RingView
        decreases self.video.len(),
    {
        if self.over_cap() && self.has_spare() {
            proof {
                lemma_keyframe_from(self.video, 1);
            }
            self.drop_gop().trim_audio().enforced()
        } else {
            self.trim_audio()
        }
    }

    /// The ring with one more video packet.
    pub open spec fn with_video(self, packet: EncodedPacket) -> RingView {
        RingView { video: self.video.push(packet), ..self }
    }

    /// The ring with one more packet of track `t`.
    pub open spec fn with_audio(self, t: int, packet: EncodedAudioPacket) -> RingView {
        RingView { audio: self.audio.update(t, self.audio[t].push(packet)), ..self }
    }

    /// The ring without packets.
    pub open spec fn cleared(self) -> RingView {
        RingView {
            video: Seq::empty(),
            audio: Seq::new(self.audio.len(), |t: int| Seq::<EncodedAudioPacket>::empty()),
            ..self
        }
    }

    /// Whether the ring's times and sizes can be computed: differences of times in 64 bits, with a
    /// sign, and the bytes in 64 bits.
    pub open spec fn fits(self) -> bool {
        &&& self.bytes() <= u64::MAX
        &&& forall|i: int|
            0 <= i < self.video.len() ==> {
                &&& i64::MIN <= (#[trigger] self.video[i]).pts - audio_slack()
                &&& i64::MIN <= self.video.last().pts + self.video.last().duration
                    - self.video[i].pts <= i64::MAX
            }
        &&& self.video.len() > 0 ==> i64::MIN <= self.video.last().pts
            + self.video.last().duration <= i64::MAX
    }
}

/// The keyframe found is one, and there is none before it.
pub proof fn lemma_keyframe_from(video: Seq<EncodedPacket>, i: int)
    requires
        0 <= i,
    ensures
        i <= video.len() ==> i <= keyframe_from(video, i) <= video.len(),
        keyframe_from(video, i) < video.len() ==> i <= keyframe_from(video, i) && video[keyframe_from(
            video,
            i,
        )].is_keyframe,
        forall|k: int| i <= k < keyframe_from(video, i) ==> !(#[trigger] video[k]).is_keyframe,
    decreases video.len() - i,
{
    if i < video.len() && !video[i].is_keyframe {
        lemma_keyframe_from(video, i + 1);
    }
}

/// The packet found is not before the threshold, and all before it are.
pub proof fn lemma_kept_from(track: Seq<EncodedAudioPacket>, threshold: int, i: int)
    requires
        0 <= i <= track.len(),
    ensures
        i <= kept_from(track, threshold, i) <= track.len(),
        kept_from(track, threshold, i) < track.len() ==> track[kept_from(track, threshold, i)].pts
            >= threshold,
        forall|k: int| i <= k < kept_from(track, threshold, i) ==> (#[trigger] track[k]).pts
            < threshold,
    decreases track.len() - i,
{
    if i < track.len() && track[i].pts < threshold {
        lemma_kept_from(track, threshold, i + 1);
    }
}

/// The bytes of one packet more.
pub proof fn lemma_video_bytes_push(packets: Seq<EncodedPacket>, p: EncodedPacket)
    ensures
        video_bytes(packets.push(p)) == video_bytes(packets) + p.data@.len(),
    decreases packets.len(),
{
    if packets.len() > 0 {
        assert(packets.push(p).skip(1) =~= packets.skip(1).push(p));
        lemma_video_bytes_push(packets.skip(1), p);
    } else {
        assert(packets.push(p).skip(1) =~= packets);
    }
}

/// The bytes of one packet more.
pub proof fn lemma_audio_bytes_push(packets: Seq<EncodedAudioPacket>, p: EncodedAudioPacket)
    ensures
        audio_bytes(packets.push(p)) == audio_bytes(packets) + p.data@.len(),
    decreases packets.len(),
{
    if packets.len() > 0 {
        assert(packets.push(p).skip(1) =~= packets.skip(1).push(p));
        lemma_audio_bytes_push(packets.skip(1), p);
    } else {
        assert(packets.push(p).skip(1) =~= packets);
    }
}

/// Fewer packets hold no more bytes.
pub proof fn lemma_video_bytes_skip(packets: Seq<EncodedPacket>, n: int)
    requires
        0 <= n <= packets.len(),
    ensures
        0 <= video_bytes(packets.skip(n)) <= video_bytes(packets),
    decreases packets.len(),
{
    if n > 0 {
        assert(packets.skip(1).skip(n - 1) =~= packets.skip(n));
        lemma_video_bytes_skip(packets.skip(1), n - 1);
    } else {
        assert(packets.skip(0) =~= packets);
        if packets.len() > 0 {
            assert(packets.skip(1).skip(0) =~= packets.skip(1));
            lemma_video_bytes_skip(packets.skip(1), 0);
        }
    }
}

/// Fewer packets hold no more bytes.
pub proof fn lemma_audio_bytes_skip(packets: Seq<EncodedAudioPacket>, n: int)
    requires
        0 <= n <= packets.len(),
    ensures
        0 <= audio_bytes(packets.skip(n)) <= audio_bytes(packets),
    decreases packets.len(),
{
    if n > 0 {
        assert(packets.skip(1).skip(n - 1) =~= packets.skip(n));
        lemma_audio_bytes_skip(packets.skip(1), n - 1);
    } else {
        assert(packets.skip(0) =~= packets);
        if packets.len() > 0 {
            assert(packets.skip(1).skip(0) =~= packets.skip(1));
            lemma_audio_bytes_skip(packets.skip(1), 0);
        }
    }
}

/// The bytes of the tracks when one changes.
pub proof fn lemma_tracks_bytes_update(
    tracks: Seq<Seq<EncodedAudioPacket>>,
    n: int,
    t: int,
    track: Seq<EncodedAudioPacket>,
)
    requires
        0 <= t < tracks.len(),
        0 <= n <= tracks.len(),
    ensures
        tracks_bytes(tracks.update(t, track), n) == tracks_bytes(tracks, n) + if t < n {
            audio_bytes(track) - audio_bytes(tracks[t])
        } else {
            0
        },
    decreases n,
{
    if n > 0 {
        lemma_tracks_bytes_update(tracks, n - 1, t, track);
    }
}

/// The bytes of the tracks are at least those of each.
pub proof fn lemma_tracks_bytes_bound(tracks: Seq<Seq<EncodedAudioPacket>>, n: int, t: int)
    requires
        0 <= n <= tracks.len(),
    ensures
        0 <= tracks_bytes(tracks, n),
        0 <= t < n ==> 0 <= audio_bytes(tracks[t]) <= tracks_bytes(tracks, n),
    decreases n,
{
    if n > 0 {
        lemma_tracks_bytes_bound(tracks, n - 1, t);
        assert(tracks[n - 1].skip(0) =~= tracks[n - 1]);
        lemma_audio_bytes_skip(tracks[n - 1], 0);
    }
}

/// Tracks that hold no more bytes, one by one, hold no more together.
pub proof fn lemma_tracks_bytes_less(
    a: Seq<Seq<EncodedAudioPacket>>,
    b: Seq<Seq<EncodedAudioPacket>>,
    n: int,
)
    requires
        0 <= n <= a.len(),
        n <= b.len(),
        forall|t: int| 0 <= t < n ==> audio_bytes(#[trigger] a[t]) <= audio_bytes(b[t]),
    ensures
        tracks_bytes(a, n) <= tracks_bytes(b, n),
    decreases n,
{
    if n > 0 {
        lemma_tracks_bytes_less(a, b, n - 1);
    }
}

/// Dropping a group of pictures keeps what fits.
pub proof fn lemma_drop_gop_fits(ring: RingView)
    requires
        ring.fits(),
    ensures
        ring.drop_gop().fits(),
        ring.drop_gop().bytes() <= ring.bytes(),
{
    let n = keyframe_from(ring.video, 1);
    if ring.video.len() > 0 {
        lemma_keyframe_from(ring.video, 1);
        lemma_video_bytes_skip(ring.video, n);
        let next = ring.drop_gop();
        assert forall|i: int| 0 <= i < next.video.len() implies {
            &&& i64::MIN <= (#[trigger] next.video[i]).pts - audio_slack()
            &&& i64::MIN <= next.video.last().pts + next.video.last().duration - next.video[i].pts
                <= i64::MAX
        } by {
            assert(next.video[i] == ring.video[n + i]);
            assert(next.video.last() == ring.video.last());
        }
    } else {
        assert(ring.drop_gop().video =~= ring.video);
    }
}

/// Trimming audio leaves no more bytes.
pub proof fn lemma_trim_audio_bytes(ring: RingView)
    ensures
        ring.trim_audio().bytes() <= ring.bytes(),
        ring.trim_audio().video == ring.video,
        ring.trim_audio().audio.len() == ring.audio.len(),
{
    let next = ring.trim_audio();
    if ring.video.len() > 0 {
        let threshold = ring.video[0].pts - audio_slack();
        assert forall|t: int| 0 <= t < next.audio.len() implies audio_bytes(#[trigger] next.audio[t])
            <= audio_bytes(ring.audio[t]) by {
            lemma_kept_from(ring.audio[t], threshold, 0);
            lemma_audio_bytes_skip(ring.audio[t], kept_from(ring.audio[t], threshold, 0));
        }
        lemma_tracks_bytes_less(next.audio, ring.audio, ring.audio.len() as int);
    }
}

/// Trimming audio keeps what fits.
pub proof fn lemma_trim_audio_fits(ring: RingView)
    requires
        ring.fits(),
    ensures
        ring.trim_audio().fits(),
{
    lemma_trim_audio_bytes(ring);
}

} // verus!
