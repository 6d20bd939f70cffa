//! What the probes count, take and list.

use vstd::prelude::*;

use crate::probe::{
    block_at, counted, enabled_of, frame_time, frames_ticks, gap_before, loopback_from, padded,
    resolved, usual_loopback, FaultView, LoopbackArgs, LoopbackView, ProbePacket, StreamStat,
};
use crate::reading::{lemma_decimal_is_parsed, lemma_decimal_reads_back};
use crate::text::{decimal, number};

verus! {

/// Law: frames last as long as their rate says, in ticks of a ten-millionth of a second, rounded down.
pub proof fn lemma_frames_last_by_their_rate(frames: u32, rate: u32)
    requires
        rate > 0,
    ensures
        frames_ticks(frames, rate) * rate <= frames * 10_000_000 < (frames_ticks(frames, rate) + 1)
            * rate,
{
    let a = frames * 10_000_000;
    let b = rate as int;
    let q = a / b;
    vstd::arithmetic::div_mod::lemma_fundamental_div_mod(a, b);
    assert(b * q == q * b) by (nonlinear_arith);
    assert((q + 1) * b == q * b + b) by (nonlinear_arith);
}

/// What packets count for: their number, their frames, and how many are silent or not sure of their
/// time.
pub open spec fn totals(packets: Seq<ProbePacket>) -> (int, int, int, int) {
    (
        packets.len() as int,
        packets.fold_left(0int, |sum: int, p: ProbePacket| sum + p.frames),
        packets.filter(|p: ProbePacket| p.silent).len() as int,
        packets.filter(|p: ProbePacket| p.timestamp_error).len() as int,
    )
}

/// A count after packets.
pub open spec fn counted_all(s: StreamStat, packets: Seq<ProbePacket>) -> StreamStat {
    packets.fold_left(s, |s: StreamStat, p: ProbePacket| counted(s, p))
}

/// Law: every packet counts once. After any packets the counts are their number, their frames in all, and
/// how many are silent and not sure of their time; the first time is the first packet's, and the last
/// one what the last packet says.
pub proof fn lemma_every_packet_counts_once(s: StreamStat, packets: Seq<ProbePacket>)
    requires
        s.packets == 0,
        s.frames == 0,
        s.silent == 0,
        s.timestamp_errors == 0,
        s.first is None,
        s.prev is None,
        totals(packets).0 <= u64::MAX,
        totals(packets).1 <= u64::MAX,
    ensures
        ({
            let all = counted_all(s, packets);
            let (n, frames, silent, unsure) = totals(packets);
            &&& all.packets == n
            &&& all.frames == frames
            &&& all.silent == silent
            &&& all.timestamp_errors == unsure
            &&& packets.len() > 0 ==> all.first == Some(packets[0].pts)
            &&& packets.len() > 0 ==> all.prev == Some((packets.last().pts, packets.last().frames))
            &&& packets.len() > 0 ==> all.rate == packets.last().sample_rate
            &&& packets.len() == 0 ==> all == s
        }),
        0 <= totals(packets).1,
        totals(packets).2 <= packets.len(),
        totals(packets).3 <= packets.len(),
    decreases packets.len(),
{
    reveal(Seq::filter);
    reveal(Seq::fold_left);
    if packets.len() > 0 {
        let init = packets.drop_last();
        let p = packets.last();
        lemma_totals_grow(init);
        assert(totals(packets).1 == totals(init).1 + p.frames);
        lemma_every_packet_counts_once(s, init);
        let before = counted_all(s, init);
        assert(counted_all(s, packets) == counted(before, p));
    }
}

/// What packets count for is not negative.
proof fn lemma_totals_grow(packets: Seq<ProbePacket>)
    ensures
        0 <= totals(packets).1,
    decreases packets.len(),
{
    reveal(Seq::fold_left);
    if packets.len() > 0 {
        lemma_totals_grow(packets.drop_last());
    }
}

/// Law: the longest gap only grows, to just what is missing between two packets where that is longer.
/// A packet that begins where the one before ends leaves no gap.
pub proof fn lemma_longest_gap_is_kept(s: StreamStat, p: ProbePacket, pts: i64, frames: u32)
    requires
        s.prev == Some((pts, frames)),
        i64::MIN <= gap_before(s.prev, p) <= i64::MAX,
        p.sample_rate > 0,
    ensures
        ({
            let missing = p.pts - pts - frames_ticks(frames, p.sample_rate);
            &&& counted(s, p).max_gap_ticks >= s.max_gap_ticks
            &&& counted(s, p).max_gap_ticks >= missing
            &&& counted(s, p).max_gap_ticks == s.max_gap_ticks || counted(s, p).max_gap_ticks
                == missing
        }),
{
}

/// Law: an option of the loopback probe sets what it names, and nothing else, wherever it stands.
pub proof fn lemma_loopback_options(args: Seq<Seq<char>>, i: int, v: LoopbackView, n: u64)
    requires
        0 <= i,
        i + 1 < args.len(),
    ensures
        args[i] == "--pid"@ && args[i + 1] == decimal(n as int) && n <= u32::MAX ==> loopback_from(
            args,
            i,
            v,
        ) == loopback_from(args, i + 2, LoopbackView { pid: Some(n as u32), ..v }),
        args[i] == "--seconds"@ && args[i + 1] == decimal(n as int) ==> loopback_from(args, i, v)
            == loopback_from(args, i + 2, LoopbackView { seconds: n, ..v }),
        args[i] == "--out"@ ==> loopback_from(args, i, v) == loopback_from(
            args,
            i + 2,
            LoopbackView { out: Some(args[i + 1]), ..v },
        ),
        args[i] == "--exclude"@ ==> loopback_from(args, i, v) == loopback_from(
            args,
            i + 1,
            LoopbackView { include_tree: false, ..v },
        ),
        args[i] == "--include"@ ==> loopback_from(args, i, v) == loopback_from(
            args,
            i + 1,
            LoopbackView { include_tree: true, ..v },
        ),
        args[i] == "--tone"@ ==> loopback_from(args, i, v) == loopback_from(
            args,
            i + 1,
            LoopbackView { tone: Some(true), ..v },
        ),
        args[i] == "--no-tone"@ ==> loopback_from(args, i, v) == loopback_from(
            args,
            i + 1,
            LoopbackView { tone: Some(false), ..v },
        ),
        args[i] == "--help"@ ==> loopback_from(args, i, v) == Err::<LoopbackView, FaultView>(
            FaultView::Help,
        ),
        usual_loopback().seconds == 8 && usual_loopback().include_tree && usual_loopback().pid is None
            && usual_loopback().out is None && usual_loopback().tone is None,
{
    reveal_strlit("--pid");
    reveal_strlit("--seconds");
    reveal_strlit("--out");
    reveal_strlit("--exclude");
    reveal_strlit("--include");
    reveal_strlit("--tone");
    reveal_strlit("--no-tone");
    reveal_strlit("-h");
    reveal_strlit("--help");
    assert("--pid"@[2] == 'p' && "--seconds"@[2] == 's' && "--out"@[2] == 'o' && "--exclude"@[2]
        == 'e' && "--include"@[2] == 'i' && "--tone"@[2] == 't' && "--no-tone"@[2] == 'n'
        && "--help"@[2] == 'h' && "-h"@.len() == 2);
    lemma_decimal_is_parsed(n as int, u32::MAX as int);
    lemma_decimal_is_parsed(n as int, u64::MAX as int);
}

/// Law: an option that lacks its value is refused, and one whose value is no number.
pub proof fn lemma_loopback_faults(args: Seq<Seq<char>>, v: LoopbackView)
    requires
        args.len() > 0,
        args.last() == "--pid"@ || args.last() == "--seconds"@ || args.last() == "--out"@,
    ensures
        loopback_from(args, args.len() - 1, v) == Err::<LoopbackView, FaultView>(
            FaultView::NeedsValue(args.last()),
        ),
{
}

/// Law: a probe that is not told otherwise listens to its own process, and plays a tone only then.
pub proof fn lemma_probe_plays_to_itself(a: LoopbackArgs, v: LoopbackView, self_pid: u32)
    requires
        resolved(a, v, self_pid),
        v.tone is None,
    ensures
        v.pid is None ==> a.pid == self_pid && a.tone,
        v.pid matches Some(pid) ==> a.pid == pid && (a.tone <==> pid == self_pid),
{
}

/// Law: the blocks of a sound make up the whole: each but the last has 1024 samples, and none goes
/// beyond the end.
pub proof fn lemma_blocks_make_up_the_whole(total: int, done: int)
    requires
        0 <= done <= total,
    ensures
        0 <= block_at(total, done) <= 1_024,
        done + block_at(total, done) <= total,
        done < total ==> block_at(total, done) > 0,
        block_at(total, done) < 1_024 ==> done + block_at(total, done) == total,
{
}

/// Law: a count is shown in at least four places: spaces, and then the number.
pub proof fn lemma_padded_count_reads_back(n: int) -> (k: int)
    requires
        0 <= n,
    ensures
        0 <= k < padded(n).len(),
        padded(n).len() >= 4,
        k > 0 ==> padded(n).len() == 4,
        forall|i: int| 0 <= i < k ==> #[trigger] padded(n)[i] == ' ',
        number(padded(n).skip(k)) == n,
{
    reveal_strlit("   ");
    reveal_strlit("  ");
    reveal_strlit(" ");
    reveal_strlit("");
    reveal_with_fuel(decimal, 5);
    lemma_decimal_reads_back(n);
    let k: int = if n < 10 {
        3
    } else if n < 100 {
        2
    } else if n < 1000 {
        1
    } else {
        0
    };
    lemma_decimal_len(n);
    assert(padded(n).skip(k) =~= decimal(n));
    k
}

/// How many digits a small number has.
proof fn lemma_decimal_len(n: int)
    requires
        0 <= n,
    ensures
        n < 10 ==> decimal(n).len() == 1,
        10 <= n < 100 ==> decimal(n).len() == 2,
        100 <= n < 1_000 ==> decimal(n).len() == 3,
        1_000 <= n ==> decimal(n).len() >= 4,
    decreases n,
{
    if n >= 10 {
        lemma_decimal_len(n / 10);
    }
}

/// Law: the programs that count are those that are switched on, in their order.
pub proof fn lemma_enabled_programs_count(apps: Seq<(Seq<char>, bool)>)
    ensures
        enabled_of(apps) == apps.filter(|a: (Seq<char>, bool)| a.1).map_values(
            |a: (Seq<char>, bool)| a.0,
        ),
    decreases apps.len(),
{
    reveal(Seq::filter);
    if apps.len() > 0 {
        lemma_enabled_programs_count(apps.drop_last());
    }
    assert(enabled_of(apps) =~= apps.filter(|a: (Seq<char>, bool)| a.1).map_values(
        |a: (Seq<char>, bool)| a.0,
    ));
}

/// Law: frames come at their rate, without drift: a frame's time is the exact one, rounded down to a
/// ten-millionth of a second.
pub proof fn lemma_frames_come_at_their_rate(index: int, fps: int)
    requires
        0 <= index,
        0 < fps,
    ensures
        frame_time(index, fps) * fps <= index * 10_000_000 < (frame_time(index, fps) + 1) * fps,
{
    let a = index * 10_000_000;
    let q = a / fps;
    vstd::arithmetic::div_mod::lemma_fundamental_div_mod(a, fps);
    assert(fps * q == q * fps) by (nonlinear_arith);
    assert((q + 1) * fps == q * fps + fps) by (nonlinear_arith);
}

} // verus!
