//! What it means that a clip passes.

use vstd::prelude::*;
use vstd::seq_lib::lemma_fold_left_permutation;

use crate::check::micros::{size, LIMIT};
use crate::check::report::{
    audio_part, decode_outcome, first_video, infos, joint_part, outcomes, time_of, track_name,
    track_outcome, track_times, video_part, Findings,
};
use crate::check::streams::{
    of_kind, shape_outcome, track_fault, tracks_fault, FrameRate, RawView, StreamView,
};
use crate::check::timing::{
    cfr_outcome, deltas, ends_outcome, expected, first_late, first_skewed, greatest, in_reach, lead,
    lemma_order_means_increasing, misses, order_outcome, origin_outcome, Delta,
    AAC_FRAMES_3, CFR_TOL,
};
use crate::seqs::{lemma_filter_item, lemma_filter_keeps};

verus! {

/// Whether a stream is AAC at 48 kHz, in stereo.
pub open spec fn good_sound(s: StreamView) -> bool {
    s.codec_name == "aac"@ && s.sample_rate == Some(48_000u32) && s.channels == Some(2u32)
}

/// Whether streams are one H.264 picture and at least one AAC track.
pub open spec fn good_shape(streams: Seq<StreamView>) -> bool {
    let video = of_kind(streams, "video"@);
    let audio = of_kind(streams, "audio"@);
    &&& video.len() == 1
    &&& video[0].codec_name == "h264"@
    &&& audio.len() >= 1
    &&& forall|i: int| 0 <= i < audio.len() ==> good_sound(#[trigger] audio[i])
}

/// Whether there are times, and each is after all before it.
pub open spec fn increasing(pts: Seq<i64>) -> bool {
    pts.len() > 0 && forall|i: int, j: int| 0 <= i < j < pts.len() ==> pts[i] < pts[j]
}

/// Whether times are as far apart as they should be, but for a millisecond.
pub open spec fn evenly_spaced(pts: Seq<i64>, delta: Delta) -> bool {
    &&& pts.len() >= 2
    &&& forall|i: int|
        1 <= i < pts.len() ==> -1_000 * delta.den <= (#[trigger] pts[i] - pts[i - 1]) * delta.den
            - delta.num <= 1_000 * delta.den
}

/// Whether a sound track begins at zero or at most an AAC frame after it, and ends at most an AAC
/// frame away from a picture that ends a frame after `last`. An AAC frame lasts a third of 64
/// milliseconds.
pub open spec fn fits_picture(track: Seq<i64>, last: int, delta: Delta) -> bool {
    &&& track.len() > 0
    &&& 0 <= track[0]
    &&& 3 * track[0] <= 64_000
    &&& {
        let sound_end = 3 * track.last() + 64_000;
        let apart = sound_end * delta.den - 3 * (last * delta.den + delta.num);
        -64_000 * delta.den <= apart <= 64_000 * delta.den
    }
}

/// Whether a sound track was found whole and fits the picture.
pub open spec fn good_track(found: Result<Vec<i64>, String>, last: int, delta: Delta) -> bool {
    found matches Ok(pts) && increasing(pts@) && fits_picture(pts@, last, delta)
}

/// Whether a clip is as it should be.
pub open spec fn good_clip(f: Findings) -> bool {
    &&& f.streams is Ok
    &&& good_shape(infos(f.listed()))
    &&& first_video(f.listed()) matches Some(stream) && f.video matches Ok(pts) && {
        let delta = expected(stream.avg_frame_rate, pts@);
        &&& increasing(pts@)
        &&& evenly_spaced(pts@, delta)
        &&& -1_000 <= pts@[0] <= 1_000
        &&& forall|i: int|
            0 <= i < f.audio@.len() ==> good_track(
                #[trigger] f.audio@[i],
                pts@.last() as int,
                delta,
            )
    }
    &&& f.decoded is Ok
}

/// Sound tracks without a fault.
proof fn lemma_tracks_without_fault(audio: Seq<StreamView>, i: int)
    requires
        0 <= i,
    ensures
        tracks_fault(audio, i) is None <==> forall|k: int|
            i <= k < audio.len() ==> good_sound(#[trigger] audio[k]),
    decreases audio.len() - i,
{
    if i < audio.len() {
        lemma_tracks_without_fault(audio, i + 1);
        assert(track_fault(i, audio[i]) is None <==> good_sound(audio[i]));
    }
}

/// Law: the check of the streams passes exactly for one H.264 picture and at least one AAC track at
/// 48 kHz in stereo, and no other sound.
pub proof fn lemma_shape_means(streams: Seq<StreamView>)
    ensures
        shape_outcome(streams).pass <==> good_shape(streams),
{
    lemma_tracks_without_fault(of_kind(streams, "audio"@), 0);
}

/// The greatest of some numbers is below a bound where all are.
proof fn lemma_greatest_bounds(s: Seq<int>, bound: int)
    requires
        s.len() > 0,
    ensures
        greatest(s) <= bound <==> forall|i: int| 0 <= i < s.len() ==> #[trigger] s[i] <= bound,
    decreases s.len(),
{
    if s.len() > 1 {
        let t = s.drop_last();
        lemma_greatest_bounds(t, bound);
        assert(forall|i: int| 0 <= i < t.len() ==> #[trigger] t[i] == s[i]);
        if greatest(s) <= bound {
            assert(greatest(t) <= bound && s.last() <= bound);
            assert forall|i: int| 0 <= i < s.len() implies #[trigger] s[i] <= bound by {
                if i < t.len() {
                    assert(t[i] <= bound);
                }
            }
        } else {
            if forall|i: int| 0 <= i < s.len() ==> #[trigger] s[i] <= bound {
                assert forall|i: int| 0 <= i < t.len() implies #[trigger] t[i] <= bound by {
                    assert(s[i] <= bound);
                }
                assert(s[s.len() - 1] <= bound);
            }
        }
    } else {
        assert(s[0] == greatest(s));
    }
}

/// The times from frame to frame.
proof fn lemma_deltas_are(pts: Seq<i64>)
    requires
        pts.len() >= 1,
    ensures
        deltas(pts).len() == pts.len() - 1,
        forall|i: int| 0 <= i < pts.len() - 1 ==> #[trigger] deltas(pts)[i] == pts[i + 1] - pts[i],
    decreases pts.len(),
{
    if pts.len() >= 2 {
        let t = pts.drop_last();
        lemma_deltas_are(t);
        assert forall|i: int| 0 <= i < pts.len() - 1 implies #[trigger] deltas(pts)[i] == pts[i + 1]
            - pts[i] by {
            if i < pts.len() - 2 {
                assert(deltas(t)[i] == t[i + 1] - t[i]);
            }
        }
    }
}

/// Law: the check of the picture's spacing passes exactly where each frame comes when it should, but
/// for a millisecond.
pub proof fn lemma_spacing_means(pts: Seq<i64>, delta: Delta)
    ensures
        cfr_outcome(pts, delta).pass <==> evenly_spaced(pts, delta),
{
    if pts.len() >= 2 {
        lemma_deltas_are(pts);
        let steps = deltas(pts);
        let off = misses(steps, delta);
        let bound = CFR_TOL * delta.den;
        lemma_greatest_bounds(off, bound);
        if greatest(off) <= bound {
            assert forall|i: int| 1 <= i < pts.len() implies -1_000 * delta.den <= (
            #[trigger] pts[i] - pts[i - 1]) * delta.den - delta.num <= 1_000 * delta.den by {
                assert(off[i - 1] <= bound);
                assert(steps[i - 1] == pts[i - 1 + 1] - pts[i - 1]);
            }
        }
        if evenly_spaced(pts, delta) {
            assert forall|i: int| 0 <= i < off.len() implies #[trigger] off[i] <= bound by {
                assert(steps[i] == pts[i + 1] - pts[i]);
                assert((pts[i + 1] - pts[i + 1 - 1]) * delta.den - delta.num <= bound);
                assert(-1_000 * delta.den == -bound);
            }
        }
    }
}

/// How far a track ends behind the picture, in parts.
proof fn lemma_lead_in_parts(audio: int, last: int, delta: Delta)
    ensures
        lead(audio, last, delta) == (3 * audio + 64_000) * delta.den - 3 * (last * delta.den
            + delta.num),
        size(lead(audio, last, delta)) <= AAC_FRAMES_3 * delta.den <==> -64_000 * delta.den <= (3
            * audio + 64_000) * delta.den - 3 * (last * delta.den + delta.num) <= 64_000
            * delta.den,
{
    let q = delta.den as int;
    assert((audio - last) * (3 * q) == 3 * audio * q - 3 * (last * q)) by (nonlinear_arith);
    assert((3 * audio + 64_000) * q == 3 * audio * q + 64_000 * q) by (nonlinear_arith);
    assert(-64_000 * q == -(64_000 * q)) by (nonlinear_arith);
}

/// Tracks of which none ends too far away.
proof fn lemma_none_skewed(last: int, delta: Delta, audio: Seq<(Seq<char>, int)>, i: int)
    requires
        0 <= i,
    ensures
        first_skewed(last, delta, audio, i) is None <==> forall|k: int|
            i <= k < audio.len() ==> size(lead((#[trigger] audio[k]).1, last, delta))
                <= AAC_FRAMES_3 * delta.den,
    decreases audio.len() - i,
{
    if i < audio.len() {
        lemma_none_skewed(last, delta, audio, i + 1);
    }
}

/// Tracks of which none begins too late or too early.
proof fn lemma_none_late(audio: Seq<(Seq<char>, int)>, i: int)
    requires
        0 <= i,
    ensures
        first_late(audio, i) is None <==> forall|k: int|
            i <= k < audio.len() ==> 0 <= (#[trigger] audio[k]).1 && 3 * audio[k].1
                <= AAC_FRAMES_3,
    decreases audio.len() - i,
{
    if i < audio.len() {
        lemma_none_late(audio, i + 1);
    }
}

/// The times of tracks that all have some.
proof fn lemma_times_of_tracks(audio: Seq<Result<Vec<i64>, String>>, n: nat, last: bool)
    requires
        n <= audio.len(),
        forall|i: int| 0 <= i < n ==> (#[trigger] audio[i]) is Ok && audio[i]->Ok_0@.len() > 0,
    ensures
        track_times(audio, n, last).len() == n,
        forall|i: int|
            0 <= i < n ==> (#[trigger] track_times(audio, n, last)[i]).1 == if last {
                audio[i]->Ok_0@.last()
            } else {
                audio[i]->Ok_0@[0]
            },
    decreases n,
{
    if n > 0 {
        lemma_times_of_tracks(audio, (n - 1) as nat, last);
        assert(audio[n - 1] is Ok);
        let before = track_times(audio, (n - 1) as nat, last);
        let one = time_of(n - 1, audio[n - 1], last);
        assert(one.len() == 1);
        assert forall|i: int| 0 <= i < n implies (#[trigger] track_times(audio, n, last)[i]).1
            == if last {
            audio[i]->Ok_0@.last()
        } else {
            audio[i]->Ok_0@[0]
        } by {
            if i < n - 1 {
                assert(track_times(audio, n, last)[i] == before[i]);
            }
        }
    }
}

/// The outcomes for the sound tracks.
proof fn lemma_audio_part(audio: Seq<Result<Vec<i64>, String>>, n: nat)
    ensures
        audio_part(audio, n).len() == n,
        forall|i: int|
            0 <= i < n ==> #[trigger] audio_part(audio, n)[i] == track_outcome(i, audio[i]),
    decreases n,
{
    if n > 0 {
        lemma_audio_part(audio, (n - 1) as nat);
    }
}

/// Where there is one picture among the streams, there is a first one.
proof fn lemma_picture_is_there(streams: Seq<RawView>)
    requires
        of_kind(infos(streams), "video"@).len() > 0,
    ensures
        first_video(streams) is Some,
{
    let pred = |s: StreamView| s.codec_type == "video"@;
    let k = lemma_filter_item(infos(streams), pred, 0);
    let raw = |s: RawView| s.info.codec_type == "video"@;
    assert(infos(streams)[k] == streams[k].info);
    assert(raw(streams[k]));
    let i = lemma_filter_keeps(streams, raw, k);
}

/// Whether all of some outcomes pass.
pub open spec fn passing(f: Findings) -> bool {
    forall|i: int| 0 <= i < outcomes(f).len() ==> (#[trigger] outcomes(f)[i]).pass
}

/// Where each of the parts' outcomes passes, all do, and only there.
proof fn lemma_parts(f: Findings)
    requires
        f.streams is Ok,
    ensures
        passing(f) <==> {
            &&& shape_outcome(infos(f.listed())).pass
            &&& forall|i: int| 0 <= i < video_part(f).len() ==> (#[trigger] video_part(f)[i]).pass
            &&& forall|i: int|
                0 <= i < f.audio@.len() ==> (#[trigger] track_outcome(i, f.audio@[i])).pass
            &&& forall|i: int| 0 <= i < joint_part(f).len() ==> (#[trigger] joint_part(f)[i]).pass
            &&& f.decoded is Ok
        },
{
    let all = outcomes(f);
    let shape = seq![shape_outcome(infos(f.listed()))];
    let video = video_part(f);
    let audio = audio_part(f.audio@, f.audio@.len());
    let joint = joint_part(f);
    let decode = seq![decode_outcome(f.decoded)];
    lemma_audio_part(f.audio@, f.audio@.len());
    let a = 1 + video.len();
    let b = a + audio.len();
    let c = b + joint.len();
    assert(all.len() == c + 1);
    assert(all[0] == shape[0]);
    assert(all[c as int] == decode[0]);
    assert forall|i: int| 0 <= i < video.len() implies #[trigger] video[i] == all[1 + i] by {}
    assert forall|i: int| 0 <= i < audio.len() implies #[trigger] audio[i] == all[a + i] by {}
    assert forall|i: int| 0 <= i < joint.len() implies #[trigger] joint[i] == all[b + i] by {}
    if passing(f) {
        assert(all[0].pass && all[c as int].pass);
        assert forall|i: int| 0 <= i < video.len() implies (#[trigger] video[i]).pass by {
            assert(all[1 + i].pass);
        }
        assert forall|i: int| 0 <= i < f.audio@.len() implies (#[trigger] track_outcome(
            i,
            f.audio@[i],
        )).pass by {
            assert(audio[i] == track_outcome(i, f.audio@[i]));
            assert(all[a + i].pass);
        }
        assert forall|i: int| 0 <= i < joint.len() implies (#[trigger] joint[i]).pass by {
            assert(all[b + i].pass);
        }
    } else {
        let k = choose|k: int| 0 <= k < all.len() && !(#[trigger] all[k]).pass;
        if 1 <= k < a {
            assert(video[k - 1] == all[1 + (k - 1)]);
            assert(!video[k - 1].pass);
        } else if a <= k < b {
            assert(audio[k - a] == all[a + (k - a)]);
            assert(!track_outcome(k - a, f.audio@[k - a]).pass);
        } else if b <= k < c {
            assert(joint[k - b] == all[b + (k - b)]);
            assert(!joint[k - b].pass);
        }
    }
}

/// A clip whose streams could be listed passes all checks exactly where it is as it should be.
proof fn lemma_passing_listed_clip_is_good(f: Findings)
    requires
        f.streams is Ok,
    ensures
        passing(f) <==> good_clip(f),
{
    let streams = f.listed();
    lemma_parts(f);
    lemma_shape_means(infos(streams));
    if shape_outcome(infos(streams)).pass {
        lemma_picture_is_there(streams);
        let stream = first_video(streams).unwrap();
        if f.video is Ok {
            let pts = f.video->Ok_0@;
            let delta = expected(stream.avg_frame_rate, pts);
            let last = pts.last() as int;
            let n = f.audio@.len();
            lemma_order_means_increasing("v:0"@, pts);
            lemma_spacing_means(pts, delta);
            let order = order_outcome("v:0"@, pts);
            let spacing = cfr_outcome(pts, delta);
            assert(video_part(f) =~= seq![order, spacing]);
            assert(video_part(f)[0] == order && video_part(f)[1] == spacing);
            assert forall|i: int| 0 <= i < n implies ((#[trigger] track_outcome(i, f.audio@[i])).pass
                <==> f.audio@[i] is Ok && increasing(f.audio@[i]->Ok_0@)) by {
                if f.audio@[i] is Ok {
                    lemma_order_means_increasing(track_name(i), f.audio@[i]->Ok_0@);
                }
            }
            if pts.len() > 0 && (forall|i: int|
                0 <= i < n ==> (#[trigger] track_outcome(i, f.audio@[i])).pass) {
                assert forall|i: int| 0 <= i < n implies (#[trigger] f.audio@[i]) is Ok && increasing(
                    f.audio@[i]->Ok_0@,
                ) by {
                    assert(track_outcome(i, f.audio@[i]).pass);
                }
                let lasts = track_times(f.audio@, n, true);
                let firsts = track_times(f.audio@, n, false);
                lemma_times_of_tracks(f.audio@, n, true);
                lemma_times_of_tracks(f.audio@, n, false);
                lemma_none_skewed(last, delta, lasts, 0);
                lemma_none_late(firsts, 0);
                let ends = ends_outcome(last, delta, lasts);
                let origin = origin_outcome(pts[0] as int, firsts);
                assert(joint_part(f) =~= seq![ends, origin]);
                assert(joint_part(f)[0] == ends && joint_part(f)[1] == origin);
                assert forall|i: int| 0 <= i < n implies (size(
                    lead((#[trigger] f.audio@[i])->Ok_0@.last() as int, last, delta),
                ) <= AAC_FRAMES_3 * delta.den) == (-64_000 * delta.den <= (3
                    * f.audio@[i]->Ok_0@.last() + 64_000) * delta.den - 3 * (last * delta.den
                    + delta.num) <= 64_000 * delta.den) by {
                    lemma_lead_in_parts(f.audio@[i]->Ok_0@.last() as int, last, delta);
                }
                assert(ends.pass && origin.pass <==> -1_000 <= pts[0] <= 1_000 && forall|
                    i: int,
                |
                    0 <= i < n ==> fits_picture(
                        (#[trigger] f.audio@[i])->Ok_0@,
                        last,
                        delta,
                    )) by {
                    if ends.pass && origin.pass {
                        assert forall|i: int| 0 <= i < n implies fits_picture(
                            (#[trigger] f.audio@[i])->Ok_0@,
                            last,
                            delta,
                        ) by {
                            assert(lasts[i].1 == f.audio@[i]->Ok_0@.last());
                            assert(firsts[i].1 == f.audio@[i]->Ok_0@[0]);
                        }
                    }
                    if -1_000 <= pts[0] <= 1_000 && forall|i: int|
                        0 <= i < n ==> fits_picture(
                            (#[trigger] f.audio@[i])->Ok_0@,
                            last,
                            delta,
                        ) {
                        assert forall|k: int| 0 <= k < lasts.len() implies size(
                            lead((#[trigger] lasts[k]).1, last, delta),
                        ) <= AAC_FRAMES_3 * delta.den by {
                            assert(fits_picture(f.audio@[k]->Ok_0@, last, delta));
                        }
                        assert forall|k: int| 0 <= k < firsts.len() implies 0 <= (
                        #[trigger] firsts[k]).1 && 3 * firsts[k].1 <= AAC_FRAMES_3 by {
                            assert(fits_picture(f.audio@[k]->Ok_0@, last, delta));
                        }
                    }
                }
                if good_clip(f) {
                    assert forall|i: int| 0 <= i < n implies fits_picture(
                        (#[trigger] f.audio@[i])->Ok_0@,
                        last,
                        delta,
                    ) by {
                        assert(good_track(f.audio@[i], last, delta));
                    }
                }
                if passing(f) {
                    assert forall|i: int| 0 <= i < n implies good_track(
                        #[trigger] f.audio@[i],
                        last,
                        delta,
                    ) by {
                        assert(fits_picture(f.audio@[i]->Ok_0@, last, delta));
                    }
                }
            } else {
                if good_clip(f) {
                    assert forall|i: int| 0 <= i < n implies (#[trigger] track_outcome(
                        i,
                        f.audio@[i],
                    )).pass by {
                        assert(good_track(f.audio@[i], last, delta));
                    }
                }
            }
        } else {
            assert(!video_part(f)[0].pass);
        }
    }
}

/// Law: a clip passes all checks exactly where it is as it should be: one H.264 picture and AAC
/// tracks at 48 kHz in stereo; every track's times increasing; the picture's evenly spaced and
/// beginning at zero; every sound track beginning and ending within an AAC frame of the picture; and
/// nothing in it that cannot be decoded.
pub proof fn lemma_passing_clip_is_good(f: Findings)
    ensures
        passing(f) <==> good_clip(f),
{
    if f.streams is Ok {
        lemma_passing_listed_clip_is_good(f);
    } else {
        assert(!outcomes(f)[0].pass);
    }
}

/// Law: the frame time of a stream with a known frame rate is that of the rate: times the frames, it
/// makes the seconds. It is a time above zero, and without end only where the rate is zero.
pub proof fn lemma_frame_time_is_that_of_the_rate(rate: FrameRate, pts: Seq<i64>)
    requires
        rate.den > 0,
    ensures
        rate.num * expected(Some(rate), pts).num == 1_000_000 * rate.den * expected(
            Some(rate),
            pts,
        ).den,
        expected(Some(rate), pts).num > 0,
        expected(Some(rate), pts).den == 0 <==> rate.num == 0,
{
    let delta = expected(Some(rate), pts);
    let (a, b) = (rate.num as int, 1_000_000 * rate.den);
    assert(a * b == b * a) by (nonlinear_arith);
}

/// Whether times are `den / num` seconds apart, but for a millisecond.
pub open spec fn at_rate(pts: Seq<i64>, rate: FrameRate) -> bool {
    forall|i: int|
        1 <= i < pts.len() ==> 1_000_000 * rate.den - 1_000 * rate.num <= (#[trigger] pts[i] - pts[i
            - 1]) * rate.num <= 1_000_000 * rate.den + 1_000 * rate.num
}

/// Law: a clip passes the check of its spacing exactly where its frames come at the rate that its
/// stream says, but for a millisecond.
pub proof fn lemma_frames_at_their_rate_pass(rate: FrameRate, pts: Seq<i64>)
    requires
        rate.num > 0,
        rate.den > 0,
        pts.len() >= 2,
    ensures
        cfr_outcome(pts, expected(Some(rate), pts)).pass <==> at_rate(pts, rate),
{
    let delta = expected(Some(rate), pts);
    lemma_spacing_means(pts, delta);
    if at_rate(pts, rate) {
        assert forall|i: int| 1 <= i < pts.len() implies -1_000 * delta.den <= (
        #[trigger] pts[i] - pts[i - 1]) * delta.den - delta.num <= 1_000 * delta.den by {
            assert((pts[i] - pts[i - 1]) * rate.num >= 1_000_000 * rate.den - 1_000 * rate.num);
        }
    }
    if evenly_spaced(pts, delta) {
        assert forall|i: int| 1 <= i < pts.len() implies 1_000_000 * rate.den - 1_000 * rate.num <= (
        #[trigger] pts[i] - pts[i - 1]) * rate.num <= 1_000_000 * rate.den + 1_000 * rate.num by {
            assert((pts[i] - pts[i - 1]) * delta.den - delta.num >= -1_000 * delta.den);
        }
    }
}

/// How many of some numbers are below a bound.
pub open spec fn count_below(s: Seq<int>, bound: int) -> int
    decreases s.len(),
{
    if s.len() == 0 {
        0
    } else {
        count_below(s.drop_last(), bound) + if s.last() < bound {
            1int
        } else {
            0
        }
    }
}

/// Where all numbers from a place on are not below a bound, no more are than stand before it; and
/// where all up to a place are below it, they count.
proof fn lemma_count_below(s: Seq<int>, bound: int, k: int)
    ensures
        (0 <= k && forall|i: int| k <= i < s.len() ==> #[trigger] s[i] >= bound) ==> count_below(
            s,
            bound,
        ) <= k,
        (k <= s.len() && forall|i: int| 0 <= i < k ==> #[trigger] s[i] < bound) ==> k <= count_below(
            s,
            bound,
        ),
        0 <= count_below(s, bound) <= s.len(),
    decreases s.len(),
{
    if s.len() > 0 {
        let t = s.drop_last();
        assert(forall|i: int| 0 <= i < t.len() ==> #[trigger] t[i] == s[i]);
        lemma_count_below(t, bound, k);
        lemma_count_below(t, bound, k - 1);
        if 0 <= k && forall|i: int| k <= i < s.len() ==> #[trigger] s[i] >= bound {
            assert forall|i: int| k <= i < t.len() implies #[trigger] t[i] >= bound by {
                assert(s[i] >= bound);
            }
            if k <= s.len() - 1 {
                assert(s[s.len() - 1] >= bound);
            }
        }
        if k <= s.len() && forall|i: int| 0 <= i < k ==> #[trigger] s[i] < bound {
            assert forall|i: int| 0 <= i < k && i < t.len() implies #[trigger] t[i] < bound by {
                assert(s[i] < bound);
            }
            if k == s.len() {
                assert(s[s.len() - 1] < bound);
            }
        }
    }
}

/// How many numbers are below a bound does not depend on their order.
proof fn lemma_count_in_any_order(s: Seq<int>, t: Seq<int>, bound: int)
    requires
        s.to_multiset() == t.to_multiset(),
    ensures
        count_below(s, bound) == count_below(t, bound),
{
    let f = |n: int, x: int|
        n + if x < bound {
            1int
        } else {
            0
        };
    lemma_count_is_fold(s, bound);
    lemma_count_is_fold(t, bound);
    lemma_fold_left_permutation(s, t, f, 0);
}

/// Counting, one number after the other.
proof fn lemma_count_is_fold(s: Seq<int>, bound: int)
    ensures
        count_below(s, bound) == s.fold_left(
            0int,
            |n: int, x: int|
                n + if x < bound {
                    1int
                } else {
                    0
                },
        ),
    decreases s.len(),
{
    if s.len() > 0 {
        lemma_count_is_fold(s.drop_last(), bound);
    }
}

/// The times from each frame to the next, from the times.
pub open spec fn steps_of(pts: Seq<i64>) -> Seq<int> {
    Seq::new((pts.len() - 1) as nat, |i: int| pts[i + 1] - pts[i])
}

/// Law: where the frame rate is not known, the frame time is the middle one of the times between
/// frames: at most half of them are shorter, and more than half are no longer.
pub proof fn lemma_frame_time_without_rate_is_the_middle(pts: Seq<i64>)
    requires
        in_reach(pts),
        pts.len() >= 2,
    ensures
        ({
            let delta = expected(None, pts);
            let steps = steps_of(pts);
            let half = (pts.len() - 1) / 2;
            &&& delta.den == 1
            &&& count_below(steps, delta.num as int) <= half
            &&& half < count_below(steps, delta.num + 1)
        }),
{
    let steps = steps_of(pts);
    lemma_deltas_are(pts);
    assert(deltas(pts) =~= steps);
    let leq = |a: int, b: int| a <= b;
    steps.lemma_sort_ensures();
    let sorted = steps.sort();
    steps.to_multiset_ensures();
    sorted.to_multiset_ensures();
    assert(sorted.len() == steps.len());
    let half = (pts.len() - 1) / 2;
    let m = sorted[half];
    assert(steps.to_multiset().count(m) > 0) by {
        assert(sorted.contains(m));
    }
    assert(steps.contains(m));
    let k = choose|k: int| 0 <= k < steps.len() && steps[k] == m;
    assert(-2 * LIMIT <= m <= 2 * LIMIT);
    assert forall|i: int, j: int| 0 <= i < j < sorted.len() implies sorted[i] <= sorted[j] by {
        assert(leq(sorted[i], sorted[j]));
    }
    lemma_count_in_any_order(steps, sorted, m);
    lemma_count_in_any_order(steps, sorted, m + 1);
    lemma_count_below(sorted, m, half);
    lemma_count_below(sorted, m + 1, half + 1);
}

} // verus!
