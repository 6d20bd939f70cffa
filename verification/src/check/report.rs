//! All checks of a clip, in order.

use vstd::prelude::*;

use crate::check::streams::{
    check_stream_shape, find_kind, of_kind, picked, raw_views, shape_outcome, stream_views, Check,
    CheckView, RawStream, RawView, StreamInfo, StreamView,
};
use crate::check::timing::{
    cfr_outcome, check_cfr, check_end_alignment, check_monotonic, check_rebase_origin,
    ends_outcome, expected, expected_delta, in_reach, named_times, order_outcome, origin_outcome,
    times_in_reach, Delta, TrackTime,
};
use crate::seqs::lemma_filter_begins;
use crate::text::{decimal, push_decimal, same_text, trim, trimmed};

verus! {

/// The outcome of a question that could not be answered.
pub open spec fn unanswered(why: Seq<char>) -> CheckView {
    CheckView { name: "probe"@, pass: false, detail: why }
}

/// The outcome of a question that could not be answered.
pub fn probe_error(why: String) -> (c: Check)
    ensures
        c@ == unanswered(why@),
{
    Check::fail(String::from_str("probe"), why)
}

/// The name of the check that a clip can be decoded.
pub const DECODE: &'static str = "fragment validity (full decode, §4.6)";

/// What is known of a clip: its streams, or why they could not be listed, the picture's times, each
/// sound track's, and whether it can be decoded.
#[derive(Debug)]
pub struct Findings {
    pub streams: Result<Vec<RawStream>, String>,
    pub video: Result<Vec<i64>, String>,
    pub audio: Vec<Result<Vec<i64>, String>>,
    pub decoded: Result<(), String>,
}

/// The streams' kinds and codecs.
pub open spec fn infos(streams: Seq<RawView>) -> Seq<StreamView> {
    streams.map_values(|s: RawView| s.info)
}

/// The first picture among the streams.
pub open spec fn first_video(streams: Seq<RawView>) -> Option<RawView> {
    let video = streams.filter(|s: RawView| s.info.codec_type == "video"@);
    if video.len() > 0 {
        Some(video[0])
    } else {
        None
    }
}

impl Findings {
    /// What is said of the streams, where they could be listed.
    pub open spec fn listed(&self) -> Seq<RawView> {
        match self.streams {
            Ok(streams) => raw_views(streams@),
            Err(_) => Seq::empty(),
        }
    }

    /// Whether the findings go together: times that can be taken, frame rates over something, and
    /// one finding for each sound track. Where the streams could not be listed, anything goes.
    pub open spec fn wf(&self) -> bool {
        self.streams matches Ok(streams) ==> {
            &&& self.video matches Ok(pts) ==> in_reach(pts@)
            &&& forall|i: int|
                0 <= i < self.audio@.len() ==> (#[trigger] self.audio@[i] matches Ok(
                    pts,
                ) ==> in_reach(pts@))
            &&& forall|i: int|
                0 <= i < streams@.len() ==> ((#[trigger] streams@[i]).avg_frame_rate matches Some(
                    rate,
                ) ==> rate.den > 0)
            &&& self.audio@.len() == of_kind(infos(raw_views(streams@)), "audio"@).len()
        }
    }
}

/// The name of a sound track.
pub open spec fn track_name(i: int) -> Seq<char> {
    "a:"@ + decimal(i)
}

/// The picture's part of the outcomes.
pub open spec fn video_part(f: Findings) -> Seq<CheckView> {
    match first_video(f.listed()) {
        None => seq![unanswered("no video stream to probe PTS from"@)],
        Some(stream) => match f.video {
            Ok(pts) => seq![
                order_outcome("v:0"@, pts@),
                cfr_outcome(pts@, expected(stream.avg_frame_rate, pts@)),
            ],
            Err(why) => seq![unanswered(why@)],
        },
    }
}

/// The outcome for a sound track.
pub open spec fn track_outcome(i: int, found: Result<Vec<i64>, String>) -> CheckView {
    match found {
        Ok(pts) => order_outcome(track_name(i), pts@),
        Err(why) => unanswered(why@),
    }
}

/// The outcomes for the first sound tracks.
pub open spec fn audio_part(audio: Seq<Result<Vec<i64>, String>>, n: nat) -> Seq<CheckView>
    decreases n,
{
    if n == 0 {
        Seq::empty()
    } else {
        audio_part(audio, (n - 1) as nat).push(track_outcome(n - 1, audio[n - 1]))
    }
}

/// A time of a sound track, where it has any.
pub open spec fn time_of(i: int, found: Result<Vec<i64>, String>, last: bool) -> Seq<
    (Seq<char>, int),
> {
    match found {
        Ok(pts) => if pts@.len() == 0 {
            Seq::empty()
        } else if last {
            seq![(track_name(i), pts@.last() as int)]
        } else {
            seq![(track_name(i), pts@[0] as int)]
        },
        Err(_) => Seq::empty(),
    }
}

/// The first or last times of the first sound tracks that have any.
pub open spec fn track_times(audio: Seq<Result<Vec<i64>, String>>, n: nat, last: bool) -> Seq<
    (Seq<char>, int),
>
    decreases n,
{
    if n == 0 {
        Seq::empty()
    } else {
        track_times(audio, (n - 1) as nat, last) + time_of(n - 1, audio[n - 1], last)
    }
}

/// The part of the outcomes that sets the tracks against the picture, where that has frames.
pub open spec fn joint_part(f: Findings) -> Seq<CheckView> {
    let n = f.audio@.len();
    match (first_video(f.listed()), f.video) {
        (Some(stream), Ok(pts)) => if pts@.len() == 0 {
            Seq::empty()
        } else {
            seq![
                ends_outcome(
                    pts@.last() as int,
                    expected(stream.avg_frame_rate, pts@),
                    track_times(f.audio@, n, true),
                ),
                origin_outcome(pts@[0] as int, track_times(f.audio@, n, false)),
            ]
        },
        _ => Seq::empty(),
    }
}

/// The outcome of decoding the clip.
pub open spec fn decode_outcome(decoded: Result<(), String>) -> CheckView {
    match decoded {
        Ok(_) => CheckView {
            name: DECODE@,
            pass: true,
            detail: "decoded start-to-finish, no errors"@,
        },
        Err(why) => CheckView { name: DECODE@, pass: false, detail: why@ },
    }
}

/// What is wrong with decoding a clip, given how the decoder ended and what it complained of. A
/// complaint is enough, even where it went on to the end.
pub open spec fn decode_fault(success: bool, status: Seq<char>, complaint: Seq<char>) -> Option<
    Seq<char>,
> {
    let said = trimmed(complaint);
    if !success {
        Some("ffmpeg exited "@ + status + ": "@ + said)
    } else if said.len() > 0 {
        Some("decode errors: "@ + said)
    } else {
        None
    }
}

/// Whether a clip was decoded, or what is wrong with it.
pub fn full_decode_ok(success: bool, status: &str, complaint: &str) -> (r: Result<(), String>)
    ensures
        r is Ok <==> decode_fault(success, status@, complaint@) is None,
        r matches Err(why) ==> decode_fault(success, status@, complaint@) == Some(why@),
{
    let said: &str = trim(complaint);
    if !success {
        let mut why: String = String::from_str("ffmpeg exited ");
        why.append(status);
        why.append(": ");
        why.append(said);
        return Err(why);
    }
    if said.unicode_len() > 0 {
        let mut why: String = String::from_str("decode errors: ");
        why.append(said);
        return Err(why);
    }
    Ok(())
}

/// All outcomes for a clip whose streams could be listed.
pub open spec fn listed_outcomes(f: Findings) -> Seq<CheckView> {
    seq![shape_outcome(infos(f.listed()))] + video_part(f) + audio_part(f.audio@, f.audio@.len())
        + joint_part(f) + seq![decode_outcome(f.decoded)]
}

/// All outcomes for a clip: where its streams could not be listed, only that.
pub open spec fn outcomes(f: Findings) -> Seq<CheckView> {
    match f.streams {
        Ok(_) => listed_outcomes(f),
        Err(why) => seq![unanswered(why@)],
    }
}

/// What checks say.
pub open spec fn check_views(v: Seq<Check>) -> Seq<CheckView> {
    v.map_values(|c: Check| c@)
}

/// Add an outcome.
fn add_check(v: &mut Vec<Check>, c: Check)
    ensures
        check_views(final(v)@) == check_views(old(v)@).push(c@),
{
    let ghost before = v@;
    v.push(c);
    assert(check_views(v@) =~= check_views(before).push(c@));
}

/// The streams' kinds and codecs.
fn copy_infos(streams: &Vec<RawStream>) -> (v: Vec<StreamInfo>)
    ensures
        stream_views(v@) == infos(raw_views(streams@)),
        v@.len() == streams@.len(),
{
    let mut v: Vec<StreamInfo> = Vec::new();
    let n: usize = streams.len();
    let mut i: usize = 0;
    while i < n
        invariant
            i <= n,
            n == streams@.len(),
            v@.len() == i,
            forall|k: int| 0 <= k < i ==> (#[trigger] v@[k])@ == streams@[k].info@,
        decreases n - i,
    {
        v.push(
            StreamInfo {
                codec_type: streams[i].info.codec_type.clone(),
                codec_name: streams[i].info.codec_name.clone(),
                sample_rate: streams[i].info.sample_rate,
                channels: streams[i].info.channels,
            },
        );
        i = i + 1;
    }
    assert(stream_views(v@) =~= infos(raw_views(streams@)));
    v
}

/// The first picture among the streams.
fn find_video(streams: &Vec<RawStream>) -> (r: Option<usize>)
    ensures
        r is Some <==> first_video(raw_views(streams@)) is Some,
        r matches Some(i) ==> i < streams@.len() && first_video(raw_views(streams@)) == Some(
            streams@[i as int]@,
        ),
{
    let ghost pred = |s: RawView| s.info.codec_type == "video"@;
    let ghost all = raw_views(streams@);
    let n: usize = streams.len();
    let mut i: usize = 0;
    while i < n
        invariant
            i <= n,
            n == streams@.len(),
            all == raw_views(streams@),
            pred == (|s: RawView| s.info.codec_type == "video"@),
            forall|j: int| 0 <= j < i ==> !pred(#[trigger] all[j]),
        decreases n - i,
    {
        if same_text(streams[i].info.codec_type.as_str(), "video") {
            proof {
                assert(pred(all[i as int]));
                lemma_filter_begins(all, pred, i as int);
            }
            return Some(i);
        }
        assert(!pred(all[i as int]));
        i = i + 1;
    }
    proof {
        if all.filter(pred).len() > 0 {
            let k = crate::seqs::lemma_filter_item(all, pred, 0);
            assert(!pred(all[k]));
        }
    }
    None
}

/// The name of a sound track.
pub fn track_label(i: usize) -> (s: String)
    ensures
        s@ == track_name(i as int),
{
    let mut s: String = String::from_str("a:");
    push_decimal(&mut s, i as u64);
    s
}

/// How many sound tracks there are to ask about.
pub fn audio_tracks(streams: &Vec<RawStream>) -> (n: usize)
    ensures
        n == of_kind(infos(raw_views(streams@)), "audio"@).len(),
{
    let v: Vec<StreamInfo> = copy_infos(streams);
    let places: Vec<usize> = find_kind(v.as_slice(), "audio");
    assert(places@.len() == picked(stream_views(v@), places@).len());
    places.len()
}

/// Whether there is a picture to ask about.
pub fn has_video(streams: &Vec<RawStream>) -> (b: bool)
    ensures
        b == (first_video(raw_views(streams@)) is Some),
{
    find_video(streams).is_some()
}

/// Add the time of a track, where it has any.
fn add_time(v: &mut Vec<TrackTime>, i: usize, pts: &Vec<i64>, last: bool)
    requires
        in_reach(pts@),
        times_in_reach(old(v)@),
    ensures
        times_in_reach(final(v)@),
        named_times(final(v)@) == named_times(old(v)@) + (if pts@.len() == 0 {
            Seq::empty()
        } else if last {
            seq![(track_name(i as int), pts@.last() as int)]
        } else {
            seq![(track_name(i as int), pts@[0] as int)]
        }),
{
    let ghost before = v@;
    let n: usize = pts.len();
    if n > 0 {
        let time: i64 = if last {
            pts[n - 1]
        } else {
            pts[0]
        };
        v.push(TrackTime { label: track_label(i), time });
        assert(named_times(v@) =~= named_times(before).push((track_name(i as int), time as int)));
    }
    assert(named_times(v@) =~= named_times(before) + (if pts@.len() == 0 {
        Seq::empty()
    } else if last {
        seq![(track_name(i as int), pts@.last() as int)]
    } else {
        seq![(track_name(i as int), pts@[0] as int)]
    }));
}

/// The checks of a clip, in order: its streams, the picture's order and spacing, each track's
/// order, the tracks against the picture, and that it can be decoded. A clip whose streams could not
/// be listed has one check, which fails and says why.
pub fn verify_clip(f: &Findings) -> (v: Vec<Check>)
    requires
        f.wf(),
    ensures
        check_views(v@) == outcomes(*f),
        f.streams matches Err(why) ==> check_views(v@) == seq![unanswered(why@)],
{
    let mut v: Vec<Check> = Vec::new();
    assert(check_views(v@) =~= Seq::empty());
    let streams: &Vec<RawStream> = match &f.streams {
        Ok(streams) => streams,
        Err(why) => {
            add_check(&mut v, probe_error(why.clone()));
            assert(check_views(v@) =~= seq![unanswered(why@)]);
            return v;
        },
    };
    let copied: Vec<StreamInfo> = copy_infos(streams);
    add_check(&mut v, check_stream_shape(copied.as_slice()));
    let ghost shape = check_views(v@);
    assert(shape =~= seq![shape_outcome(infos(f.listed()))]);
    let mut delta: Delta = Delta { num: 0, den: 1 };
    let video: Option<usize> = find_video(streams);
    match video {
        None => {
            add_check(
                &mut v,
                probe_error(String::from_str("no video stream to probe PTS from")),
            );
        },
        Some(k) => match &f.video {
            Ok(pts) => {
                delta = expected_delta(streams[k].avg_frame_rate, pts.as_slice());
                add_check(&mut v, check_monotonic("v:0", pts.as_slice()));
                add_check(&mut v, check_cfr(pts.as_slice(), delta));
            },
            Err(why) => {
                add_check(&mut v, probe_error(why.clone()));
            },
        },
    }
    assert(check_views(v@) =~= shape + video_part(*f));
    let ghost so_far = check_views(v@);
    let mut lasts: Vec<TrackTime> = Vec::new();
    let mut firsts: Vec<TrackTime> = Vec::new();
    let n: usize = f.audio.len();
    let mut i: usize = 0;
    assert(so_far =~= so_far + audio_part(f.audio@, 0));
    assert(named_times(lasts@) =~= track_times(f.audio@, 0, true));
    assert(named_times(firsts@) =~= track_times(f.audio@, 0, false));
    while i < n
        invariant
            i <= n,
            n == f.audio@.len(),
            f.wf(),
            f.streams is Ok,
            times_in_reach(lasts@),
            times_in_reach(firsts@),
            check_views(v@) == so_far + audio_part(f.audio@, i as nat),
            named_times(lasts@) == track_times(f.audio@, i as nat, true),
            named_times(firsts@) == track_times(f.audio@, i as nat, false),
        decreases n - i,
    {
        let label: String = track_label(i);
        match &f.audio[i] {
            Ok(pts) => {
                add_check(&mut v, check_monotonic(label.as_str(), pts.as_slice()));
                add_time(&mut lasts, i, pts, true);
                add_time(&mut firsts, i, pts, false);
            },
            Err(why) => {
                add_check(&mut v, probe_error(why.clone()));
                assert(named_times(lasts@) =~= named_times(lasts@) + Seq::empty());
                assert(named_times(firsts@) =~= named_times(firsts@) + Seq::empty());
            },
        }
        assert(check_views(v@) =~= so_far + audio_part(f.audio@, (i + 1) as nat));
        i = i + 1;
    }
    let ghost so_far = check_views(v@);
    if video.is_some() {
        match &f.video {
            Ok(pts) => {
                let count: usize = pts.len();
                if count > 0 {
                    add_check(
                        &mut v,
                        check_end_alignment(pts[count - 1], delta, lasts.as_slice()),
                    );
                    add_check(&mut v, check_rebase_origin(pts[0], firsts.as_slice()));
                }
            },
            Err(_) => {},
        }
    }
    assert(check_views(v@) =~= so_far + joint_part(*f));
    let ghost so_far = check_views(v@);
    let decoded: Check = match &f.decoded {
        Ok(_) => Check::pass(
            String::from_str(DECODE),
            String::from_str("decoded start-to-finish, no errors"),
        ),
        Err(why) => Check::fail(String::from_str(DECODE), why.clone()),
    };
    add_check(&mut v, decoded);
    assert(check_views(v@) =~= so_far + seq![decode_outcome(f.decoded)]);
    v
}

/// Whether all of some outcomes hold.
pub fn all_pass(checks: &Vec<Check>) -> (b: bool)
    ensures
        b == (forall|i: int| 0 <= i < checks@.len() ==> (#[trigger] checks@[i]).pass),
{
    let n: usize = checks.len();
    let mut i: usize = 0;
    while i < n
        invariant
            i <= n,
            n == checks@.len(),
            forall|k: int| 0 <= k < i ==> (#[trigger] checks@[k]).pass,
        decreases n - i,
    {
        if !checks[i].pass {
            return false;
        }
        i = i + 1;
    }
    true
}

/// The word for an outcome.
pub open spec fn verdict(pass: bool) -> Seq<char> {
    if pass {
        "PASS"@
    } else {
        "FAIL"@
    }
}

/// The two lines on a check.
pub open spec fn check_lines(c: CheckView) -> Seq<char> {
    "  ["@ + verdict(c.pass) + "] "@ + c.name + "\n         "@ + c.detail + "\n"@
}

/// The lines on checks.
pub open spec fn checks_text(checks: Seq<CheckView>) -> Seq<char>
    decreases checks.len(),
{
    if checks.len() == 0 {
        Seq::empty()
    } else {
        checks_text(checks.drop_last()) + check_lines(checks.last())
    }
}

/// Whether all of some outcomes hold.
pub open spec fn all_hold(checks: Seq<CheckView>) -> bool {
    forall|i: int| 0 <= i < checks.len() ==> (#[trigger] checks[i]).pass
}

/// The report on a clip: its name and whether it passes, then each check.
pub open spec fn clip_text(clip: Seq<char>, checks: Seq<CheckView>) -> Seq<char> {
    "\n── "@ + clip + " — "@ + verdict(all_hold(checks)) + " ──\n"@ + checks_text(checks)
}

/// The word for an outcome.
fn verdict_word(pass: bool) -> (s: &'static str)
    ensures
        s@ == verdict(pass),
{
    if pass {
        "PASS"
    } else {
        "FAIL"
    }
}

/// The report on a clip.
pub fn clip_report(clip: &str, checks: &Vec<Check>) -> (text: String)
    ensures
        text@ == clip_text(clip@, check_views(checks@)),
{
    let ghost all = check_views(checks@);
    let pass: bool = all_pass(checks);
    assert(pass == all_hold(all)) by {
        assert forall|i: int| 0 <= i < all.len() implies (#[trigger] all[i]).pass == checks@[i].pass by {}
        if !pass {
            let k = choose|k: int| 0 <= k < checks@.len() && !(#[trigger] checks@[k]).pass;
            assert(!all[k].pass);
        }
    }
    let mut text: String = String::from_str("\n── ");
    text.append(clip);
    text.append(" — ");
    text.append(verdict_word(pass));
    text.append(" ──\n");
    let ghost head = text@;
    let n: usize = checks.len();
    let mut i: usize = 0;
    assert(all.take(0) =~= Seq::empty());
    assert(text@ =~= head + checks_text(all.take(0)));
    while i < n
        invariant
            i <= n,
            n == checks@.len(),
            all == check_views(checks@),
            text@ == head + checks_text(all.take(i as int)),
        decreases n - i,
    {
        let mut lines: String = String::from_str("  [");
        lines.append(verdict_word(checks[i].pass));
        lines.append("] ");
        lines.append(checks[i].name.as_str());
        lines.append("\n         ");
        lines.append(checks[i].detail.as_str());
        lines.append("\n");
        assert(all[i as int] == checks@[i as int]@);
        assert(lines@ =~= check_lines(all[i as int]));
        assert(all.take(i + 1).drop_last() =~= all.take(i as int));
        let ghost so_far = text@;
        text.append(lines.as_str());
        assert(text@ =~= head + checks_text(all.take(i + 1)));
        i = i + 1;
    }
    assert(all.take(n as int) =~= all);
    text
}

/// The line that ends a report on clips.
pub fn tally(total: usize, failed: usize) -> (line: String)
    requires
        failed <= total,
    ensures
        line@ == "\n═══ "@ + decimal(total - failed) + "/"@ + decimal(total as int)
            + " clip(s) passed ═══"@,
{
    let mut line: String = String::from_str("\n═══ ");
    push_decimal(&mut line, (total - failed) as u64);
    line.append("/");
    push_decimal(&mut line, total as u64);
    line.append(" clip(s) passed ═══");
    line
}

/// The exit status of the clip check: nothing to check is a misuse, and one clip that fails is enough.
pub fn exit_status(total: usize, failed: usize) -> (code: u8)
    ensures
        code == if total == 0 {
            2u8
        } else if failed == 0 {
            0u8
        } else {
            1u8
        },
{
    if total == 0 {
        2
    } else if failed == 0 {
        0
    } else {
        1
    }
}

} // verus!
