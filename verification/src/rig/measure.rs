//! From what a recording shows and sounds like to how far the two are apart.

use vstd::prelude::*;

use crate::check::micros::{micros_of, parse_micros, pieces, split, views};
use crate::rig::analysis::{
    fits, is_near, lemma_edges_are_apart, lemma_pairings_are_near, pair_events, pairings,
    reports, rising_edges, search, sum_x, sum_xx, sum_xy, sum_y, sum_yy, summable, summarize,
    Pairing, Report,
};
use crate::text::{decimal, push_decimal};

verus! {

/// A flash is white over black: the brightness that counts, in millionths.
pub const LUMA_THRESHOLD: i64 = 128_000_000;

/// A click is loud: the sample that counts, three tenths of full scale.
pub const CLICK_THRESHOLD: i64 = 9831;

/// Two events are at least so far apart, in microseconds.
pub const REFRACTORY_US: i64 = 300_000;

/// A click goes with a flash that is no further away, in microseconds.
pub const MAX_SKEW_US: i64 = 100_000;

/// Sound is looked at in windows of so many samples: five milliseconds at 48 kHz.
pub const WINDOW_SAMPLES: usize = 240;

/// A window in microseconds.
pub const WINDOW_US: i64 = 5000;

/// The size of the sample at a place: two bytes, the low one first, as a signed number.
pub open spec fn loudness(raw: Seq<u8>, j: int) -> int {
    let n = raw[2 * j] + 256 * raw[2 * j + 1];
    if n < 0x8000 {
        n
    } else {
        0x1_0000 - n
    }
}

/// The loudest of the samples from `from` on, up to `to`.
pub open spec fn peak(raw: Seq<u8>, from: int, to: int) -> int
    decreases to - from,
{
    if to <= from {
        0
    } else {
        let before = peak(raw, from, to - 1);
        if loudness(raw, to - 1) > before {
            loudness(raw, to - 1)
        } else {
            before
        }
    }
}

/// The end of a window.
pub open spec fn window_end(n: int, k: int) -> int {
    if (k + 1) * WINDOW_SAMPLES < n {
        (k + 1) * WINDOW_SAMPLES
    } else {
        n
    }
}

/// The loudest sample of each of the first windows, with the window's time.
pub open spec fn windows(raw: Seq<u8>, count: nat) -> Seq<(i64, i64)> {
    let n = raw.len() as int / 2;
    Seq::new(
        count,
        |k: int|
            ((k * WINDOW_US) as i64, peak(raw, k * WINDOW_SAMPLES, window_end(n, k)) as i64),
    )
}

/// How many windows some samples fill, the last perhaps not to its end.
pub open spec fn window_count(samples: int) -> int {
    (samples + WINDOW_SAMPLES - 1) / WINDOW_SAMPLES as int
}

/// The size of the sample at a place.
fn sample_size(raw: &[u8], j: usize) -> (n: i64)
    requires
        2 * j + 1 < raw@.len(),
    ensures
        n == loudness(raw@, j as int),
        0 <= n <= 0x8000,
{
    let len: usize = raw.len();
    assert(2 * j + 1 < len);
    let n: i64 = raw[2 * j] as i64 + 256 * raw[2 * j + 1] as i64;
    if n < 0x8000 {
        n
    } else {
        0x1_0000 - n
    }
}

/// The loudest of some samples.
fn find_peak(raw: &[u8], from: usize, to: usize) -> (p: i64)
    requires
        from <= to,
        2 * to <= raw@.len(),
    ensures
        p == peak(raw@, from as int, to as int),
{
    let mut p: i64 = 0;
    let mut j: usize = from;
    while j < to
        invariant
            from <= j <= to,
            2 * to <= raw@.len(),
            p == peak(raw@, from as int, j as int),
        decreases to - j,
    {
        let n: i64 = sample_size(raw, j);
        if n > p {
            p = n;
        }
        j = j + 1;
    }
    p
}

/// The loudest sample of each window of sound, with the window's time. A last byte without its
/// other half is left out.
pub fn click_series(raw: &[u8]) -> (series: Vec<(i64, i64)>)
    requires
        raw@.len() <= i64::MAX / WINDOW_US,
    ensures
        series@ == windows(raw@, window_count(raw@.len() as int / 2) as nat),
{
    let mut series: Vec<(i64, i64)> = Vec::new();
    let n: usize = raw.len() / 2;
    let mut from: usize = 0;
    let ghost mut k: int = 0;
    assert(series@ =~= windows(raw@, 0));
    while from < n
        invariant
            n == raw@.len() / 2,
            raw@.len() <= i64::MAX / WINDOW_US,
            raw@.len() <= usize::MAX,
            0 <= k,
            from == if k * 240 < n {
                k * 240
            } else {
                n as int
            },
            k <= window_count(n as int),
            series@.len() == k,
            series@ == windows(raw@, k as nat),
        decreases n - from,
    {
        let to: usize = if WINDOW_SAMPLES < n - from {
            from + WINDOW_SAMPLES
        } else {
            n
        };
        let p: i64 = find_peak(raw, from, to);
        let t: i64 = series.len() as i64 * WINDOW_US;
        let ghost before = series@;
        assert(to == window_end(n as int, k));
        series.push((t, p));
        proof {
            k = k + 1;
        }
        assert(series@ =~= windows(raw@, k as nat));
        from = to;
    }
    assert(k == window_count(n as int));
    series
}

/// The numbers among some fields, in millionths.
pub open spec fn numbers(fields: Seq<Seq<char>>) -> Seq<int>
    decreases fields.len(),
{
    if fields.len() == 0 {
        Seq::empty()
    } else {
        let before = numbers(fields.drop_last());
        match micros_of(fields.last()) {
            Some(n) => before.push(n),
            None => before,
        }
    }
}

/// The times and brightnesses of some lines: of each the first two numbers, where it has two.
pub open spec fn samples_of(lines: Seq<Seq<char>>) -> Seq<(int, int)>
    decreases lines.len(),
{
    if lines.len() == 0 {
        Seq::empty()
    } else {
        let before = samples_of(lines.drop_last());
        let found = numbers(pieces(lines.last(), ','));
        if found.len() >= 2 {
            before.push((found[0], found[1]))
        } else {
            before
        }
    }
}

/// Pairs of whole numbers.
pub open spec fn int_pairs(v: Seq<(i64, i64)>) -> Seq<(int, int)> {
    v.map_values(|p: (i64, i64)| (p.0 as int, p.1 as int))
}

/// The numbers of a line.
fn line_numbers(line: &str) -> (v: Vec<i64>)
    ensures
        v@.map_values(|n: i64| n as int) == numbers(pieces(line@, ',')),
{
    let ghost whole = |n: i64| n as int;
    let fields: Vec<&str> = split(line, ',');
    let ghost all = views(fields@);
    let mut v: Vec<i64> = Vec::new();
    let n: usize = fields.len();
    let mut i: usize = 0;
    assert(all.take(0) =~= Seq::empty());
    assert(v@.map_values(whole) =~= Seq::empty());
    while i < n
        invariant
            i <= n,
            n == fields@.len(),
            all == views(fields@),
            whole == (|n: i64| n as int),
            v@.map_values(whole) == numbers(all.take(i as int)),
        decreases n - i,
    {
        assert(all.take(i + 1).drop_last() =~= all.take(i as int));
        assert(all.take(i + 1).last() == fields@[i as int]@);
        let ghost before = v@;
        match parse_micros(fields[i]) {
            Some(t) => {
                v.push(t);
                assert(v@.map_values(whole) =~= before.map_values(whole).push(t as int));
            },
            None => {},
        }
        i = i + 1;
    }
    assert(all.take(n as int) =~= all);
    v
}

/// The times and brightnesses that a listing holds, in microseconds and millionths. Lines without
/// two numbers are left out.
pub fn parse_luma(text: &str) -> (v: Vec<(i64, i64)>)
    ensures
        int_pairs(v@) == samples_of(pieces(text@, '\n')),
{
    let lines: Vec<&str> = split(text, '\n');
    let ghost all = views(lines@);
    let mut v: Vec<(i64, i64)> = Vec::new();
    let n: usize = lines.len();
    let mut i: usize = 0;
    assert(all.take(0) =~= Seq::empty());
    assert(int_pairs(v@) =~= Seq::empty());
    while i < n
        invariant
            i <= n,
            n == lines@.len(),
            all == views(lines@),
            int_pairs(v@) == samples_of(all.take(i as int)),
        decreases n - i,
    {
        assert(all.take(i + 1).drop_last() =~= all.take(i as int));
        assert(all.take(i + 1).last() == lines@[i as int]@);
        let ghost before = v@;
        let found: Vec<i64> = line_numbers(lines[i]);
        let ghost seen = found@.map_values(|n: i64| n as int);
        if found.len() >= 2 {
            assert(seen[0] == found@[0] && seen[1] == found@[1]);
            v.push((found[0], found[1]));
        }
        assert(int_pairs(v@) =~= samples_of(all.take(i + 1)));
        i = i + 1;
    }
    assert(all.take(n as int) =~= all);
    v
}

/// A path as a filter takes it.
pub open spec fn escaped(path: Seq<char>) -> Seq<char>
    decreases path.len(),
{
    if path.len() == 0 {
        Seq::empty()
    } else {
        let before = escaped(path.drop_last());
        if path.last() == '\\' {
            before.push('/')
        } else if path.last() == ':' || path.last() == '\'' {
            before.push('\\').push(path.last())
        } else {
            before.push(path.last())
        }
    }
}

/// A path as a filter takes it: with strokes, and a backslash before each colon and each quote.
pub fn ff_escape(path: &str) -> (s: String)
    ensures
        s@ == escaped(path@),
{
    let mut s: String = String::new();
    let n: usize = path.unicode_len();
    let mut i: usize = 0;
    assert(path@.take(0) =~= Seq::empty());
    assert(s@ =~= Seq::empty());
    while i < n
        invariant
            i <= n,
            n == path@.len(),
            s@ == escaped(path@.take(i as int)),
        decreases n - i,
    {
        assert(path@.take(i + 1).drop_last() =~= path@.take(i as int));
        assert(path@.take(i + 1).last() == path@[i as int]);
        let c: char = path.get_char(i);
        if c == '\\' {
            s.push('/');
        } else {
            if c == ':' || c == '\'' {
                s.push('\\');
            }
            s.push(c);
        }
        i = i + 1;
    }
    assert(path@.take(n as int) =~= path@);
    s
}

/// What was measured.
#[derive(Debug, Clone, Copy, PartialEq, Eq)]
pub struct Measured {
    pub flashes: usize,
    pub clicks: usize,
    pub report: Report,
}

/// The flashes of a picture.
pub open spec fn flashes_of(luma: Seq<(i64, i64)>) -> Seq<i64> {
    search(luma, LUMA_THRESHOLD as int, REFRACTORY_US as int).found
}

/// The clicks of sound.
pub open spec fn clicks_of(audio: Seq<(i64, i64)>) -> Seq<i64> {
    search(audio, CLICK_THRESHOLD as int, REFRACTORY_US as int).found
}

/// Whether a recording can be measured: what its pairings sum up to can be held.
pub open spec fn measurable(luma: Seq<(i64, i64)>, audio: Seq<(i64, i64)>) -> bool {
    summable(pairings(flashes_of(luma), clicks_of(audio), MAX_SKEW_US as int))
}

/// What is said where no click goes with a flash.
pub open spec fn unpaired_text(flashes: int, clicks: int) -> Seq<char> {
    "no flash↔click pairs within 100 ms — flashes="@ + decimal(flashes) + ", clicks="@ + decimal(
        clicks,
    ) + " (check the recording captured both)"@
}

/// Whether an outcome is the one that is due: a fault where there is no picture, no sound, or no
/// pairing, else the counts and the report.
pub open spec fn is_measured(
    r: Result<Measured, String>,
    luma: Seq<(i64, i64)>,
    audio: Seq<(i64, i64)>,
) -> bool {
    let flashes = flashes_of(luma);
    let clicks = clicks_of(audio);
    let pairs = pairings(flashes, clicks, MAX_SKEW_US as int);
    if luma.len() == 0 {
        r matches Err(e) && e@
            == "no video luma samples — is ffprobe on PATH and the clip valid?"@
    } else if audio.len() == 0 {
        r matches Err(e) && e@
            == "no audio samples on track 0 — is desktop loopback enabled in the clip?"@
    } else if pairs.len() == 0 {
        r matches Err(e) && e@ == unpaired_text(flashes.len() as int, clicks.len() as int)
    } else {
        r matches Ok(m) && m.flashes == flashes.len() && m.clicks == clicks.len() && reports(
            m.report,
            pairs,
        )
    }
}

/// How far sound and picture of a recording are apart.
pub fn run_measure(luma: &[(i64, i64)], audio: &[(i64, i64)]) -> (r: Result<Measured, String>)
    requires
        measurable(luma@, audio@),
    ensures
        is_measured(r, luma@, audio@),
{
    if luma.len() == 0 {
        return Err(
            String::from_str("no video luma samples — is ffprobe on PATH and the clip valid?"),
        );
    }
    if audio.len() == 0 {
        return Err(
            String::from_str(
                "no audio samples on track 0 — is desktop loopback enabled in the clip?",
            ),
        );
    }
    let flashes: Vec<i64> = rising_edges(luma, LUMA_THRESHOLD, REFRACTORY_US);
    let clicks: Vec<i64> = rising_edges(audio, CLICK_THRESHOLD, REFRACTORY_US);
    let pairs: Vec<Pairing> = pair_events(flashes.as_slice(), clicks.as_slice(), MAX_SKEW_US);
    match summarize(pairs.as_slice()) {
        Some(report) => Ok(
            Measured { flashes: flashes.len(), clicks: clicks.len(), report },
        ),
        None => {
            let mut e: String = String::from_str("no flash↔click pairs within 100 ms — flashes=");
            push_decimal(&mut e, flashes.len() as u64);
            e.append(", clicks=");
            push_decimal(&mut e, clicks.len() as u64);
            e.append(" (check the recording captured both)");
            Err(e)
        },
    }
}

/// A time up to which every recording can be measured: nineteen hours.
pub const MAX_TIME_US: i64 = 0x10_0000_0000;

/// Whether pairings are few, early and near.
spec fn small(pairs: Seq<Pairing>) -> bool {
    &&& pairs.len() <= 0x4_0000
    &&& forall|i: int|
        0 <= i < pairs.len() ==> 0 <= (#[trigger] pairs[i]).flash_us <= MAX_TIME_US && -0x2_0000
            <= pairs[i].offset_us <= 0x2_0000
}

/// The sums of small pairings are small.
proof fn lemma_small_sums(pairs: Seq<Pairing>)
    requires
        small(pairs),
    ensures
        0 <= sum_x(pairs) <= pairs.len() * 0x10_0000_0000,
        -pairs.len() * 0x2_0000 <= sum_y(pairs) <= pairs.len() * 0x2_0000,
        0 <= sum_xx(pairs) <= pairs.len() * 0x100_0000_0000_0000_0000,
        -pairs.len() * 0x20_0000_0000_0000 <= sum_xy(pairs) <= pairs.len() * 0x20_0000_0000_0000,
        0 <= sum_yy(pairs) <= pairs.len() * 0x4_0000_0000,
    decreases pairs.len(),
{
    if pairs.len() > 0 {
        let before = pairs.drop_last();
        assert forall|i: int| 0 <= i < before.len() implies 0 <= (#[trigger] before[i]).flash_us
            <= MAX_TIME_US && -0x2_0000 <= before[i].offset_us <= 0x2_0000 by {
            assert(before[i] == pairs[i]);
        }
        lemma_small_sums(before);
        assert(pairs.last() == pairs[pairs.len() - 1]);
        let x = pairs.last().flash_us as int;
        let y = pairs.last().offset_us as int;
        assert(0 <= x * x <= 0x100_0000_0000_0000_0000) by (nonlinear_arith)
            requires
                0 <= x <= 0x10_0000_0000,
        ;
        assert(-0x20_0000_0000_0000 <= x * y <= 0x20_0000_0000_0000) by (nonlinear_arith)
            requires
                0 <= x <= 0x10_0000_0000,
                -0x2_0000 <= y <= 0x2_0000,
        ;
        assert(0 <= y * y <= 0x4_0000_0000) by (nonlinear_arith)
            requires
                -0x2_0000 <= y <= 0x2_0000,
        ;
    }
}

/// Small pairings can be summed up.
proof fn lemma_small_is_summable(pairs: Seq<Pairing>)
    requires
        small(pairs),
    ensures
        summable(pairs),
{
    let n = pairs.len() as int;
    assert forall|i: int| 0 <= i <= n implies fits(sum_xx(#[trigger] pairs.take(i))) && fits(
        sum_xy(pairs.take(i)),
    ) && fits(sum_yy(pairs.take(i))) by {
        assert(small(pairs.take(i)));
        lemma_small_sums(pairs.take(i));
    }
    lemma_small_sums(pairs);
    let (x, y) = (sum_x(pairs), sum_y(pairs));
    let (xx, xy, yy) = (sum_xx(pairs), sum_xy(pairs), sum_yy(pairs));
    assert(0 <= n * xx <= 0x1000_0000_0000_0000_0000_0000_0000) by (nonlinear_arith)
        requires
            0 <= n <= 0x4_0000,
            0 <= xx <= 0x4_0000 * 0x100_0000_0000_0000_0000,
    ;
    assert(0 <= x * x <= 0x1000_0000_0000_0000_0000_0000_0000) by (nonlinear_arith)
        requires
            0 <= x <= 0x40_0000_0000_0000,
    ;
    assert(-0x200_0000_0000_0000_0000_0000 <= n * xy <= 0x200_0000_0000_0000_0000_0000)
        by (nonlinear_arith)
        requires
            0 <= n <= 0x4_0000,
            -0x4_0000 * 0x20_0000_0000_0000 <= xy <= 0x4_0000 * 0x20_0000_0000_0000,
    ;
    assert(-0x200_0000_0000_0000_0000_0000 <= x * y <= 0x200_0000_0000_0000_0000_0000)
        by (nonlinear_arith)
        requires
            0 <= x <= 0x40_0000_0000_0000,
            -0x8_0000_0000 <= y <= 0x8_0000_0000,
    ;
    assert(0 <= n * yy <= 0x40_0000_0000_0000_0000) by (nonlinear_arith)
        requires
            0 <= n <= 0x4_0000,
            0 <= yy <= 0x4_0000 * 0x4_0000_0000,
    ;
    assert(0 <= y * y <= 0x40_0000_0000_0000_0000) by (nonlinear_arith)
        requires
            -0x8_0000_0000 <= y <= 0x8_0000_0000,
    ;
    if n >= 2 {
        let over = n * xy - x * y;
        let span = pairs.last().flash_us - pairs[0].flash_us;
        assert(pairs.last() == pairs[n - 1]);
        assert(-0x4000_0000_0000_0000_0000_0000_0000_0000 <= over * span
            <= 0x4000_0000_0000_0000_0000_0000_0000_0000) by (nonlinear_arith)
            requires
                -0x400_0000_0000_0000_0000_0000 <= over <= 0x400_0000_0000_0000_0000_0000,
                -0x10_0000_0000 <= span <= 0x10_0000_0000,
        ;
    }
}

/// Edges that are apart fit into a time only so often.
proof fn lemma_few_edges(found: Seq<i64>)
    requires
        forall|i: int| 0 <= i < found.len() ==> 0 <= #[trigger] found[i] <= MAX_TIME_US,
        forall|i: int| 1 <= i < found.len() ==> #[trigger] found[i] - found[i - 1] >= REFRACTORY_US,
    ensures
        found.len() <= 0x4_0000,
{
    if found.len() > 0 {
        lemma_edges_add_up(found, found.len() - 1);
    }
}

/// The time that edges take up.
proof fn lemma_edges_add_up(found: Seq<i64>, i: int)
    requires
        0 <= i < found.len(),
        forall|i: int| 0 <= i < found.len() ==> 0 <= #[trigger] found[i] <= MAX_TIME_US,
        forall|i: int| 1 <= i < found.len() ==> #[trigger] found[i] - found[i - 1] >= REFRACTORY_US,
    ensures
        found[i] >= i * 300_000,
    decreases i,
{
    if i > 0 {
        lemma_edges_add_up(found, i - 1);
    }
}

/// A recording that is no longer than nineteen hours can be measured.
pub proof fn lemma_short_recordings_can_be_measured(luma: Seq<(i64, i64)>, audio: Seq<(i64, i64)>)
    requires
        forall|i: int| 0 <= i < luma.len() ==> 0 <= (#[trigger] luma[i]).0 <= MAX_TIME_US,
    ensures
        measurable(luma, audio),
{
    let flashes = flashes_of(luma);
    let clicks = clicks_of(audio);
    let pairs = pairings(flashes, clicks, MAX_SKEW_US as int);
    lemma_edges_are_apart(luma, LUMA_THRESHOLD as int, REFRACTORY_US as int);
    assert forall|i: int| 0 <= i < flashes.len() implies 0 <= #[trigger] flashes[i]
        <= MAX_TIME_US by {
        let k = choose|k: int|
            0 <= k < luma.len() && (#[trigger] luma[k]).0 == flashes[i] && luma[k].1
                >= LUMA_THRESHOLD;
        assert(0 <= luma[k].0 <= MAX_TIME_US);
    }
    lemma_few_edges(flashes);
    lemma_pairings_are_near(flashes, clicks, MAX_SKEW_US as int);
    assert forall|i: int| 0 <= i < pairs.len() implies 0 <= (#[trigger] pairs[i]).flash_us
        <= MAX_TIME_US && -0x2_0000 <= pairs[i].offset_us <= 0x2_0000 by {
        let p = pairs[i];
        assert(is_near(p, flashes, clicks, MAX_SKEW_US as int));
        let f = choose|f: int| 0 <= f < flashes.len() && #[trigger] flashes[f] == p.flash_us;
        assert(0 <= flashes[f] <= MAX_TIME_US);
    }
    lemma_small_is_summable(pairs);
}

} // verus!
