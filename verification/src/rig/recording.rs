//! What is read out of a recording, and what the generator puts into one.

use vstd::prelude::*;

use crate::check::micros::{seconds6, LIMIT};
use crate::reading::{
    joined, lemma_decimal_is_parsed, lemma_joined_come_apart, lemma_seconds_are_plain,
    lemma_seconds_read_back,
};
use crate::rig::analysis::{apart, lemma_edges_are_apart, pairings, search};
use crate::rig::generator::{
    flash_from, is_due, is_over, lit, splice_of, usual_flash, FlashArgs, Schedule,
};
use crate::rig::laws::{
    is_accounted_for, is_answered, lemma_answered_flashes_are_paired, lemma_no_edge_is_missed,
    rises_at,
};
use crate::rig::measure::{
    clicks_of, escaped, flashes_of, is_measured, loudness, numbers, peak, samples_of, window_count,
    window_end, windows, Measured,
};
use crate::text::decimal;

verus! {

/// Law: a sample's size is that of the signed number that its two bytes hold, whatever its sign.
pub proof fn lemma_loudness_knows_no_sign(raw: Seq<u8>, j: int, v: int)
    requires
        -0x8000 <= v < 0x8000,
        raw[2 * j] + 256 * raw[2 * j + 1] == if v < 0 {
            v + 0x1_0000
        } else {
            v
        },
    ensures
        v >= 0 ==> loudness(raw, j) == v,
        v < 0 ==> loudness(raw, j) == -v,
{
}

/// Law: the peak of some samples is reached by one of them, and none is louder.
pub proof fn lemma_peak_is_the_loudest(raw: Seq<u8>, from: int, to: int)
    requires
        0 <= from <= to,
    ensures
        forall|j: int| from <= j < to ==> #[trigger] loudness(raw, j) <= peak(raw, from, to),
        0 <= peak(raw, from, to) <= 0x8000,
        peak(raw, from, to) == 0 || exists|j: int|
            from <= j < to && #[trigger] loudness(raw, j) == peak(raw, from, to),
    decreases to - from,
{
    if from < to {
        lemma_peak_is_the_loudest(raw, from, to - 1);
        assert(0 <= loudness(raw, to - 1) <= 0x8000);
    }
}

/// Law: every sample is heard in the window of its time. Windows are five milliseconds of 240 samples,
/// and what is given of one is the loudest of its samples.
pub proof fn lemma_every_sample_is_in_its_window(raw: Seq<u8>, j: int)
    requires
        0 <= j < raw.len() as int / 2,
        raw.len() <= i64::MAX / 5_000,
    ensures
        ({
            let all = windows(raw, window_count(raw.len() as int / 2) as nat);
            let k = j / 240;
            &&& 0 <= k < all.len()
            &&& all[k].0 == 5_000 * k
            &&& loudness(raw, j) <= all[k].1
            &&& all[k].1 == 0 || exists|i: int|
                240 * k <= i < 240 * k + 240 && i < raw.len() as int / 2 && #[trigger] loudness(
                    raw,
                    i,
                ) == all[k].1
            &&& (all.len() - 1) * 240 < raw.len() as int / 2
        }),
{
    let n = raw.len() as int / 2;
    let k = j / 240;
    let end = window_end(n, k);
    assert(240 * k <= j < end <= 240 * k + 240);
    lemma_peak_is_the_loudest(raw, 240 * k, end);
    assert(k * 240 == 240 * k);
    let p = peak(raw, 240 * k, end);
    assert(loudness(raw, j) <= p);
    assert(0 <= 5_000 * k <= i64::MAX);
    if p != 0 {
        let i = choose|i: int| 240 * k <= i < end && #[trigger] loudness(raw, i) == p;
        assert(loudness(raw, i) == p);
    }
}

/// Whether samples rise to a threshold at a time.
pub open spec fn rises_when(samples: Seq<(i64, i64)>, threshold: int, t: i64) -> bool {
    exists|k: int| #[trigger] rises_at(samples, threshold, k) && samples[k].0 == t
}

/// Law: a flash is where the picture gets at least half as bright as it can, and a click where the
/// sound gets as loud as three tenths of full scale. No such moment is passed over, unless another was
/// found in the three tenths of a second before it.
pub proof fn lemma_flashes_and_clicks_are_found(samples: Seq<(i64, i64)>, k: int)
    ensures
        rises_at(samples, 128_000_000, k) ==> is_accounted_for(
            samples,
            flashes_of(samples),
            300_000,
            k,
        ),
        rises_at(samples, 9_831, k) ==> is_accounted_for(
            samples,
            clicks_of(samples),
            300_000,
            k,
        ),
        forall|i: int|
            0 <= i < flashes_of(samples).len() ==> rises_when(
                samples,
                128_000_000,
                #[trigger] flashes_of(samples)[i],
            ),
        forall|i: int|
            0 <= i < clicks_of(samples).len() ==> rises_when(
                samples,
                9_831,
                #[trigger] clicks_of(samples)[i],
            ),
        forall|i: int|
            1 <= i < flashes_of(samples).len() ==> #[trigger] flashes_of(samples)[i] - flashes_of(
                samples,
            )[i - 1] >= 300_000,
        forall|i: int|
            1 <= i < clicks_of(samples).len() ==> #[trigger] clicks_of(samples)[i] - clicks_of(
                samples,
            )[i - 1] >= 300_000,
{
    if rises_at(samples, 128_000_000, k) {
        lemma_no_edge_is_missed(samples, 128_000_000, 300_000, k);
    }
    if rises_at(samples, 9_831, k) {
        lemma_no_edge_is_missed(samples, 9_831, 300_000, k);
    }
    lemma_found_rises(samples, 128_000_000, 300_000);
    lemma_found_rises(samples, 9_831, 300_000);
}

/// Every edge that is found is one.
proof fn lemma_found_rises(samples: Seq<(i64, i64)>, threshold: int, rest: int)
    ensures
        ({
            let found = search(samples, threshold, rest).found;
            &&& forall|i: int| 1 <= i < found.len() ==> #[trigger] found[i] - found[i - 1] >= rest
            &&& forall|i: int|
                0 <= i < found.len() ==> rises_when(samples, threshold, #[trigger] found[i])
        }),
{
    let found = search(samples, threshold, rest).found;
    lemma_edges_are_apart(samples, threshold, rest);
    assert forall|i: int| 0 <= i < found.len() implies rises_when(
        samples,
        threshold,
        #[trigger] found[i],
    ) by {
        let k = choose|k: int|
            1 <= k < samples.len() && (#[trigger] samples[k]).0 == found[i] && samples[k].1
                >= threshold && samples[k - 1].1 < threshold;
        assert(rises_at(samples, threshold, k));
    }
}

/// Law: a recording is measured where some flash has a click within a tenth of a second, and only
/// there. What is said then counts all flashes and all clicks, and pairs each flash that was answered.
pub proof fn lemma_what_can_be_measured(
    r: Result<Measured, String>,
    luma: Seq<(i64, i64)>,
    audio: Seq<(i64, i64)>,
)
    requires
        is_measured(r, luma, audio),
    ensures
        r is Ok <==> exists|i: int|
            0 <= i < flashes_of(luma).len() && is_answered(
                clicks_of(audio),
                #[trigger] flashes_of(luma)[i] as int,
                100_000,
            ),
        r matches Ok(m) ==> m.flashes == flashes_of(luma).len() && m.clicks == clicks_of(audio).len()
            && m.report.n == flashes_of(luma).filter(
            |f: i64| is_answered(clicks_of(audio), f as int, 100_000),
        ).len(),
{
    let flashes = flashes_of(luma);
    let clicks = clicks_of(audio);
    let answered = |f: i64| is_answered(clicks, f as int, 100_000);
    lemma_answered_flashes_are_paired(flashes, clicks, 100_000);
    let kept = flashes.filter(answered);
    let pairs = pairings(flashes, clicks, 100_000);
    assert(pairs.len() == kept.len());
    if kept.len() > 0 {
        lemma_kept_are_there(flashes, answered, 0);
        let i = choose|i: int| 0 <= i < flashes.len() && flashes[i] == kept[0];
        assert(is_answered(clicks, flashes[i] as int, 100_000));
    }
    if exists|i: int|
        0 <= i < flashes.len() && is_answered(clicks, #[trigger] flashes[i] as int, 100_000) {
        let i = choose|i: int|
            0 <= i < flashes.len() && is_answered(clicks, #[trigger] flashes[i] as int, 100_000);
        lemma_some_are_kept(flashes, answered, i);
        lemma_found_rises(luma, 128_000_000, 300_000);
        lemma_found_rises(audio, 9_831, 300_000);
        let c = choose|c: int|
            0 <= c < clicks.len() && apart(#[trigger] clicks[c] as int, flashes[i] as int)
                <= 100_000;
        assert(rises_when(audio, 9_831, clicks[c]));
        assert(rises_when(luma, 128_000_000, flashes[i]));
    }
}

/// What a filter keeps was there, and passes it.
proof fn lemma_kept_are_there(s: Seq<i64>, pred: spec_fn(i64) -> bool, i: int)
    requires
        0 <= i < s.filter(pred).len(),
    ensures
        exists|k: int| 0 <= k < s.len() && s[k] == s.filter(pred)[i],
        pred(s.filter(pred)[i]),
    decreases s.len(),
{
    reveal(Seq::filter);
    if s.len() > 0 {
        let before = s.drop_last();
        if i < before.filter(pred).len() {
            lemma_kept_are_there(before, pred, i);
            let k = choose|k: int| 0 <= k < before.len() && before[k] == before.filter(pred)[i];
            assert(s[k] == s.filter(pred)[i]);
        } else {
            assert(s[s.len() - 1] == s.filter(pred)[i]);
        }
    }
}

/// Where something passes a filter, something is kept.
proof fn lemma_some_are_kept(s: Seq<i64>, pred: spec_fn(i64) -> bool, i: int)
    requires
        0 <= i < s.len(),
        pred(s[i]),
    ensures
        s.filter(pred).len() > 0,
    decreases s.len(),
{
    reveal(Seq::filter);
    if i < s.len() - 1 {
        lemma_some_are_kept(s.drop_last(), pred, i);
    }
}

/// Law: a line with a time and a brightness, both in seconds' notation, is one sample with just these;
/// the lines before it give what they gave.
pub proof fn lemma_line_is_a_sample(lines: Seq<Seq<char>>, t: int, brightness: int)
    requires
        -LIMIT <= t <= LIMIT,
        -LIMIT <= brightness <= LIMIT,
    ensures
        samples_of(lines.push(seconds6(t) + seq![','] + seconds6(brightness))) == samples_of(
            lines,
        ).push((t, brightness)),
        samples_of(lines.push(seconds6(t))) == samples_of(lines),
{
    let parts = seq![seconds6(t), seconds6(brightness)];
    lemma_seconds_are_plain(t, ',');
    lemma_seconds_are_plain(brightness, ',');
    let line = seconds6(t) + seq![','] + seconds6(brightness);
    reveal_with_fuel(joined, 3);
    assert(parts.drop_last() =~= seq![seconds6(t)]);
    assert(joined(parts, ',') =~= line);
    lemma_joined_come_apart(parts, ',');
    lemma_seconds_read_back(t);
    lemma_seconds_read_back(brightness);
    reveal_with_fuel(numbers, 3);
    assert(numbers(parts) =~= seq![t, brightness]);
    assert(lines.push(line).drop_last() =~= lines);
    let one = seq![seconds6(t)];
    lemma_joined_come_apart(one, ',');
    assert(joined(one, ',') =~= seconds6(t));
    assert(one.drop_last() =~= Seq::<Seq<char>>::empty());
    assert(numbers(one) =~= seq![t]);
    assert(lines.push(seconds6(t)).drop_last() =~= lines);
}

/// What a filter takes an escaped text for: a character behind a backslash stands for itself.
pub open spec fn unescaped(s: Seq<char>) -> Seq<char>
    decreases s.len(),
{
    if s.len() == 0 {
        Seq::empty()
    } else if s.len() >= 2 && s[s.len() - 2] == '\\' {
        unescaped(s.take(s.len() - 2)).push(s.last())
    } else {
        unescaped(s.drop_last()).push(s.last())
    }
}

/// Law: a filter takes an escaped path for the path, with strokes in place of backslashes, and finds no
/// colon and no quote in it that is not escaped.
pub proof fn lemma_escaped_path_is_understood(path: Seq<char>)
    ensures
        unescaped(escaped(path)) == path.map_values(
            |c: char|
                if c == '\\' {
                    '/'
                } else {
                    c
                },
        ),
        escaped(path).len() > 0 ==> escaped(path).last() != '\\',
        forall|i: int|
            0 <= i < escaped(path).len() && (#[trigger] escaped(path)[i] == ':' || escaped(path)[i]
                == '\'') ==> i > 0 && escaped(path)[i - 1] == '\\',
    decreases path.len(),
{
    let slashed = |c: char|
        if c == '\\' {
            '/'
        } else {
            c
        };
    if path.len() > 0 {
        let init = path.drop_last();
        lemma_escaped_path_is_understood(init);
        let before = escaped(init);
        let s = escaped(path);
        let c = path.last();
        if c == ':' || c == '\'' {
            assert(s.take(s.len() - 2) =~= before);
        } else {
            assert(s.drop_last() =~= before);
        }
        assert(unescaped(s) =~= path.map_values(slashed));
        assert forall|i: int| 0 <= i < s.len() && (#[trigger] s[i] == ':' || s[i]
            == '\'') implies i > 0 && s[i - 1] == '\\' by {
            if i < before.len() {
                assert(before[i] == s[i]);
            }
        }
    } else {
        assert(unescaped(escaped(path)) =~= path.map_values(slashed));
    }
}

/// Law: a click goes into the sound whole. Each buffer takes all that it has room for or all that is
/// left, and the next goes on where it stopped.
pub proof fn lemma_click_goes_in_whole(pos: int, click: int, room: int)
    requires
        0 <= pos <= click,
        0 <= room,
    ensures
        ({
            let (taken, next) = splice_of(pos, click, room);
            &&& 0 <= taken <= room
            &&& next is None <==> click - pos <= room
            &&& next is None ==> pos + taken == click
            &&& next matches Some(p) ==> p == pos + taken && taken == room && p < click
        }),
{
}

/// Law: a flash is due as soon as its time has come and never while one is shown. It is shown for just
/// as long as was asked for, from when it was on the screen.
pub proof fn lemma_flash_lasts_as_long_as_asked(s: Schedule, shown: u64, now: u64)
    ensures
        s.lit_since is None ==> (is_due(s, now) <==> now >= s.next),
        !is_due(lit(s, shown), now),
        is_over(lit(s, shown), now) <==> now >= shown + s.flash,
        !is_over(Schedule { lit_since: None, ..s }, now),
{
}

/// Law: an option of the generator sets what it names to the number behind it, and nothing else; what
/// is no option is refused by its name.
pub proof fn lemma_generator_takes_its_options(args: Seq<Seq<char>>, i: int, a: FlashArgs, n: u64)
    requires
        0 <= i < args.len(),
    ensures
        usual_flash() == (FlashArgs { seconds: 35, interval_ms: 2_000, flash_ms: 16 }),
        i + 1 < args.len() && args[i + 1] == decimal(n as int) && args[i] == "--seconds"@
            ==> flash_from(args, i, a) == flash_from(args, i + 2, FlashArgs { seconds: n, ..a }),
        i + 1 < args.len() && args[i + 1] == decimal(n as int) && args[i] == "--interval-ms"@
            ==> flash_from(args, i, a) == flash_from(
            args,
            i + 2,
            FlashArgs { interval_ms: n, ..a },
        ),
        i + 1 < args.len() && args[i + 1] == decimal(n as int) && args[i] == "--flash-ms"@
            ==> flash_from(args, i, a) == flash_from(args, i + 2, FlashArgs { flash_ms: n, ..a }),
        args[i] != "--seconds"@ && args[i] != "--interval-ms"@ && args[i] != "--flash-ms"@
            ==> flash_from(args, i, a) == Err::<FlashArgs, Seq<char>>(args[i]),
        flash_from(args, args.len() as int, a) == Ok::<FlashArgs, Seq<char>>(a),
{
    reveal_strlit("--seconds");
    reveal_strlit("--interval-ms");
    reveal_strlit("--flash-ms");
    assert("--seconds"@[2] == 's' && "--interval-ms"@[2] == 'i' && "--flash-ms"@[2] == 'f');
    lemma_decimal_is_parsed(n as int, u64::MAX as int);
}

} // verus!
