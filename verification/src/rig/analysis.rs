//! Finding flashes and clicks, pairing them, and how their offset behaves. Times are in
//! microseconds.

use vstd::prelude::*;

verus! {

/// How far a click may be from its flash: a frame at 60 a second.
pub const AV1_BUDGET_US: i64 = 16_700;

/// How much the offset may change over a recording.
pub const AV2_DRIFT_US: i64 = 5_000;

/// A click that goes with a flash: when the flash came, and how much later the click.
#[derive(Debug, Clone, Copy, PartialEq, Eq, Structural)]
pub struct Pairing {
    pub flash_us: i64,
    pub offset_us: i64,
}

/// A search for rising edges: what was found, and whether a value below the threshold was seen since
/// the last value at or above it.
#[verifier::ext_equal]
pub struct Search {
    pub found: Seq<i64>,
    pub armed: bool,
}

/// A search after one more sample, of a time and a value. An edge counts where the value was below
/// the threshold before, and the last one is long enough ago.
pub open spec fn searched(s: Search, sample: (i64, i64), threshold: int, rest: int) -> Search {
    if sample.1 >= threshold {
        Search {
            found: if s.armed && (s.found.len() == 0 || sample.0 - s.found.last() >= rest) {
                s.found.push(sample.0)
            } else {
                s.found
            },
            armed: false,
        }
    } else {
        Search { found: s.found, armed: true }
    }
}

/// The search over some samples.
pub open spec fn search(samples: Seq<(i64, i64)>, threshold: int, rest: int) -> Search
    decreases samples.len(),
{
    if samples.len() == 0 {
        Search { found: Seq::empty(), armed: false }
    } else {
        searched(
            search(samples.drop_last(), threshold, rest),
            samples.last(),
            threshold,
            rest,
        )
    }
}

/// The times at which a value rises to a threshold after it was below, no two of them closer than
/// `rest`: so that a flash of several frames, or one that flickers, counts once.
pub fn rising_edges(samples: &[(i64, i64)], threshold: i64, rest: i64) -> (out: Vec<i64>)
    ensures
        out@ == search(samples@, threshold as int, rest as int).found,
{
    let mut out: Vec<i64> = Vec::new();
    let mut armed: bool = false;
    let n: usize = samples.len();
    let mut i: usize = 0;
    assert(samples@.take(0) =~= Seq::empty());
    while i < n
        invariant
            i <= n,
            n == samples@.len(),
            out@ == search(samples@.take(i as int), threshold as int, rest as int).found,
            armed == search(samples@.take(i as int), threshold as int, rest as int).armed,
        decreases n - i,
    {
        assert(samples@.take(i + 1).drop_last() =~= samples@.take(i as int));
        let (t, v): (i64, i64) = samples[i];
        if v >= threshold {
            if armed {
                let count: usize = out.len();
                if count == 0 || t as i128 - out[count - 1] as i128 >= rest as i128 {
                    out.push(t);
                }
            }
            armed = false;
        } else {
            armed = true;
        }
        i = i + 1;
    }
    assert(samples@.take(n as int) =~= samples@);
    out
}

/// Law: no two edges that were found one after the other are closer than the rest asks for, and
/// each is the time of a sample at or above the threshold, right after one below it.
pub proof fn lemma_edges_are_apart(samples: Seq<(i64, i64)>, threshold: int, rest: int)
    ensures
        ({
            let found = search(samples, threshold, rest).found;
            &&& forall|i: int| 1 <= i < found.len() ==> #[trigger] found[i] - found[i - 1] >= rest
            &&& forall|i: int|
                0 <= i < found.len() ==> exists|k: int|
                    1 <= k < samples.len() && (#[trigger] samples[k]).0 == #[trigger] found[i]
                        && samples[k].1 >= threshold && samples[k - 1].1 < threshold
        }),
    decreases samples.len(),
{
    if samples.len() > 0 {
        let before = samples.drop_last();
        lemma_edges_are_apart(before, threshold, rest);
        let was = search(before, threshold, rest).found;
        let found = search(samples, threshold, rest).found;
        assert forall|i: int| 0 <= i < found.len() implies exists|k: int|
            1 <= k < samples.len() && (#[trigger] samples[k]).0 == #[trigger] found[i]
                && samples[k].1 >= threshold && samples[k - 1].1 < threshold by {
            if i < was.len() {
                assert(found[i] == was[i]);
                let k = choose|k: int|
                    1 <= k < before.len() && (#[trigger] before[k]).0 == was[i] && before[k].1
                        >= threshold && before[k - 1].1 < threshold;
                assert(samples[k] == before[k] && samples[k - 1] == before[k - 1]);
            } else {
                assert(search(before, threshold, rest).armed);
                assert(before.last() == samples[samples.len() - 2]);
                assert(samples[samples.len() - 1].0 == found[i]);
            }
        }
        assert forall|i: int| 1 <= i < found.len() implies #[trigger] found[i] - found[i - 1]
            >= rest by {
            if i < was.len() {
                assert(found[i] == was[i] && found[i - 1] == was[i - 1]);
            }
        }
    }
}

/// The distance of two times.
pub open spec fn apart(a: int, b: int) -> int {
    if a < b {
        b - a
    } else {
        a - b
    }
}

/// The place of the click nearest to a flash, among the first `n`: the earlier one of two that are
/// as near.
pub open spec fn nearest_click(clicks: Seq<i64>, flash: int, n: int) -> int
    decreases n,
{
    if n <= 1 {
        0
    } else {
        let before = nearest_click(clicks, flash, n - 1);
        if apart(clicks[n - 1] as int, flash) < apart(clicks[before] as int, flash) {
            n - 1
        } else {
            before
        }
    }
}

/// Law: no click is nearer than the nearest.
pub proof fn lemma_nearest_is_nearest(clicks: Seq<i64>, flash: int, n: int)
    requires
        1 <= n <= clicks.len(),
    ensures
        0 <= nearest_click(clicks, flash, n) < n,
        forall|k: int|
            0 <= k < n ==> apart(clicks[nearest_click(clicks, flash, n)] as int, flash) <= apart(
                #[trigger] clicks[k] as int,
                flash,
            ),
    decreases n,
{
    if n > 1 {
        lemma_nearest_is_nearest(clicks, flash, n - 1);
    }
}

/// The pairing of a flash, where a click is near enough.
pub open spec fn paired(clicks: Seq<i64>, flash: i64, most: int) -> Seq<Pairing> {
    let k = nearest_click(clicks, flash as int, clicks.len() as int);
    if clicks.len() > 0 && apart(clicks[k] as int, flash as int) <= most {
        seq![Pairing { flash_us: flash, offset_us: (clicks[k] - flash) as i64 }]
    } else {
        Seq::empty()
    }
}

/// The pairings of some flashes.
pub open spec fn pairings(flashes: Seq<i64>, clicks: Seq<i64>, most: int) -> Seq<Pairing>
    decreases flashes.len(),
{
    if flashes.len() == 0 {
        Seq::empty()
    } else {
        pairings(flashes.drop_last(), clicks, most) + paired(clicks, flashes.last(), most)
    }
}

/// The place of the click nearest to a flash.
fn find_nearest(clicks: &[i64], flash: i64) -> (k: usize)
    requires
        clicks@.len() > 0,
    ensures
        k == nearest_click(clicks@, flash as int, clicks@.len() as int),
        k < clicks@.len(),
{
    let n: usize = clicks.len();
    let mut k: usize = 0;
    let mut i: usize = 1;
    while i < n
        invariant
            1 <= i <= n,
            n == clicks@.len(),
            k < i,
            k == nearest_click(clicks@, flash as int, i as int),
        decreases n - i,
    {
        if distance(clicks[i], flash) < distance(clicks[k], flash) {
            k = i;
        }
        i = i + 1;
    }
    k
}

/// The distance of two times.
fn distance(a: i64, b: i64) -> (d: i128)
    ensures
        d == apart(a as int, b as int),
{
    if a < b {
        b as i128 - a as i128
    } else {
        a as i128 - b as i128
    }
}

/// Each flash with the click nearest to it. A flash without a click that is near enough is left
/// out, rather than paired with one that is not its own.
pub fn pair_events(flashes: &[i64], clicks: &[i64], most: i64) -> (out: Vec<Pairing>)
    ensures
        out@ == pairings(flashes@, clicks@, most as int),
{
    let mut out: Vec<Pairing> = Vec::new();
    let n: usize = flashes.len();
    let mut i: usize = 0;
    assert(flashes@.take(0) =~= Seq::empty());
    while i < n
        invariant
            i <= n,
            n == flashes@.len(),
            out@ == pairings(flashes@.take(i as int), clicks@, most as int),
        decreases n - i,
    {
        let ghost before = out@;
        assert(flashes@.take(i + 1).drop_last() =~= flashes@.take(i as int));
        if clicks.len() > 0 {
            let k: usize = find_nearest(clicks, flashes[i]);
            if distance(clicks[k], flashes[i]) <= most as i128 {
                let offset_us: i64 = (clicks[k] as i128 - flashes[i] as i128) as i64;
                out.push(Pairing { flash_us: flashes[i], offset_us });
            }
        }
        assert(out@ =~= before + paired(clicks@, flashes@[i as int], most as int));
        i = i + 1;
    }
    assert(flashes@.take(n as int) =~= flashes@);
    out
}

/// Law: every pairing is of a flash with a click that is near enough, and none nearer.
pub proof fn lemma_pairings_are_near(flashes: Seq<i64>, clicks: Seq<i64>, most: int)
    requires
        most <= i64::MAX,
    ensures
        pairings(flashes, clicks, most).len() <= flashes.len(),
        forall|i: int|
            0 <= i < pairings(flashes, clicks, most).len() ==> is_near(
                #[trigger] pairings(flashes, clicks, most)[i],
                flashes,
                clicks,
                most,
            ),
    decreases flashes.len(),
{
    if flashes.len() > 0 {
        let before = flashes.drop_last();
        lemma_pairings_are_near(before, clicks, most);
        let was = pairings(before, clicks, most);
        let all = pairings(flashes, clicks, most);
        assert forall|i: int| 0 <= i < all.len() implies is_near(
            #[trigger] all[i],
            flashes,
            clicks,
            most,
        ) by {
            if i < was.len() {
                assert(all[i] == was[i]);
                assert(is_near(was[i], before, clicks, most));
                let f = choose|f: int| 0 <= f < before.len() && #[trigger] before[f] == was[i].flash_us;
                assert(flashes[f] == before[f]);
            } else {
                let flash = flashes.last();
                let k = nearest_click(clicks, flash as int, clicks.len() as int);
                lemma_nearest_is_nearest(clicks, flash as int, clicks.len() as int);
                assert(all[i] == paired(clicks, flash, most)[0]);
                assert(flashes[flashes.len() - 1] == flash);
                assert(clicks[k] - flash == all[i].offset_us);
            }
        }
    }
}

/// Whether a pairing is of one of the flashes with one of the clicks, near enough, and no click is
/// nearer.
pub open spec fn is_near(p: Pairing, flashes: Seq<i64>, clicks: Seq<i64>, most: int) -> bool {
    &&& exists|f: int| 0 <= f < flashes.len() && #[trigger] flashes[f] == p.flash_us
    &&& exists|k: int|
        0 <= k < clicks.len() && #[trigger] clicks[k] == p.flash_us + p.offset_us
    &&& apart(p.offset_us as int, 0) <= most
    &&& forall|k: int|
        0 <= k < clicks.len() ==> apart(p.offset_us as int, 0) <= apart(
            #[trigger] clicks[k] as int,
            p.flash_us as int,
        )
}

/// A sum over pairings.
pub open spec fn sum_of(pairs: Seq<Pairing>, f: spec_fn(Pairing) -> int) -> int
    decreases pairs.len(),
{
    if pairs.len() == 0 {
        0
    } else {
        sum_of(pairs.drop_last(), f) + f(pairs.last())
    }
}

/// The sum of the flashes' times.
pub open spec fn sum_x(pairs: Seq<Pairing>) -> int {
    sum_of(pairs, |p: Pairing| p.flash_us as int)
}

/// The sum of the offsets.
pub open spec fn sum_y(pairs: Seq<Pairing>) -> int {
    sum_of(pairs, |p: Pairing| p.offset_us as int)
}

/// The sum of the times' squares.
pub open spec fn sum_xx(pairs: Seq<Pairing>) -> int {
    sum_of(pairs, |p: Pairing| p.flash_us * p.flash_us)
}

/// The sum of the products of times and offsets.
pub open spec fn sum_xy(pairs: Seq<Pairing>) -> int {
    sum_of(pairs, |p: Pairing| p.flash_us * p.offset_us)
}

/// The sum of the offsets' squares.
pub open spec fn sum_yy(pairs: Seq<Pairing>) -> int {
    sum_of(pairs, |p: Pairing| p.offset_us * p.offset_us)
}

/// The least offset.
pub open spec fn least_offset(pairs: Seq<Pairing>) -> int
    decreases pairs.len(),
{
    if pairs.len() <= 1 {
        pairs[0].offset_us as int
    } else if pairs.last().offset_us < least_offset(pairs.drop_last()) {
        pairs.last().offset_us as int
    } else {
        least_offset(pairs.drop_last())
    }
}

/// The greatest offset.
pub open spec fn greatest_offset(pairs: Seq<Pairing>) -> int
    decreases pairs.len(),
{
    if pairs.len() <= 1 {
        pairs[0].offset_us as int
    } else if pairs.last().offset_us > greatest_offset(pairs.drop_last()) {
        pairs.last().offset_us as int
    } else {
        greatest_offset(pairs.drop_last())
    }
}

/// The offset's change over the recording as a fraction, by the straight line that fits the offsets
/// best: its upper number, and its lower one. Over zero there is no change.
pub open spec fn drift(pairs: Seq<Pairing>) -> (int, int) {
    let n = pairs.len() as int;
    let den = n * sum_xx(pairs) - sum_x(pairs) * sum_x(pairs);
    if n < 2 || den == 0 {
        (0, 1)
    } else {
        (
            (n * sum_xy(pairs) - sum_x(pairs) * sum_y(pairs)) * (pairs.last().flash_us
                - pairs[0].flash_us),
            den,
        )
    }
}

/// Whether a number can be held.
pub open spec fn fits(v: int) -> bool {
    i128::MIN <= v <= i128::MAX
}

/// Whether pairings can be summed up: every number that goes into their report can be held.
pub open spec fn summable(pairs: Seq<Pairing>) -> bool {
    let n = pairs.len() as int;
    let (x, y) = (sum_x(pairs), sum_y(pairs));
    &&& forall|i: int|
        0 <= i <= n ==> fits(sum_xx(#[trigger] pairs.take(i))) && fits(sum_xy(pairs.take(i)))
            && fits(sum_yy(pairs.take(i)))
    &&& fits(n * sum_xx(pairs)) && fits(x * x)
    &&& fits(n * sum_xy(pairs)) && fits(x * y) && fits(n * sum_xy(pairs) - x * y)
    &&& fits(n * sum_yy(pairs)) && fits(y * y)
    &&& fits(drift(pairs).0) && fits(-drift(pairs).0) && fits(AV2_DRIFT_US * drift(pairs).1)
}

/// How the offsets of a recording behave, in microseconds.
#[derive(Debug, Clone, Copy, PartialEq, Eq, Structural)]
pub struct Report {
    /// How many pairings there are.
    pub n: usize,
    /// The sum of the offsets: over `n`, their mean.
    pub sum_us: i128,
    pub min_us: i64,
    pub max_us: i64,
    /// The square of `n` times the deviation.
    pub spread: i128,
    /// The change of the offset over the recording, as a fraction.
    pub drift_num: i128,
    pub drift_den: i128,
    /// Every offset is within its budget.
    pub av1_pass: bool,
    /// The change is within its budget.
    pub av2_pass: bool,
}

/// Whether a report says what pairings are.
pub open spec fn reports(r: Report, pairs: Seq<Pairing>) -> bool {
    let n = pairs.len() as int;
    &&& r.n == n
    &&& r.sum_us == sum_y(pairs)
    &&& r.min_us == least_offset(pairs)
    &&& r.max_us == greatest_offset(pairs)
    &&& r.spread == n * sum_yy(pairs) - sum_y(pairs) * sum_y(pairs)
    &&& (r.drift_num as int, r.drift_den as int) == drift(pairs)
    &&& r.av1_pass == (forall|i: int|
        0 <= i < n ==> apart((#[trigger] pairs[i]).offset_us as int, 0) <= AV1_BUDGET_US)
    &&& r.av2_pass == (apart(drift(pairs).0, 0) <= AV2_DRIFT_US * drift(pairs).1)
}

/// What was summed so far.
struct Sums {
    x: i128,
    y: i128,
    xx: i128,
    xy: i128,
    yy: i128,
    least: i64,
    greatest: i64,
    within: bool,
}

/// Whether sums are those of pairings.
spec fn sums(s: Sums, pairs: Seq<Pairing>) -> bool {
    let n = pairs.len() as int;
    &&& s.x == sum_x(pairs)
    &&& s.y == sum_y(pairs)
    &&& s.xx == sum_xx(pairs)
    &&& s.xy == sum_xy(pairs)
    &&& s.yy == sum_yy(pairs)
    &&& n > 0 ==> s.least == least_offset(pairs) && s.greatest == greatest_offset(pairs)
    &&& s.within == (forall|i: int|
        0 <= i < n ==> apart((#[trigger] pairs[i]).offset_us as int, 0) <= AV1_BUDGET_US)
}

/// Sums of times and of offsets can be held.
proof fn lemma_plain_sums_fit(pairs: Seq<Pairing>)
    ensures
        -0x8000_0000_0000_0000 * pairs.len() <= sum_x(pairs) <= 0x8000_0000_0000_0000 * pairs.len(),
        -0x8000_0000_0000_0000 * pairs.len() <= sum_y(pairs) <= 0x8000_0000_0000_0000 * pairs.len(),
    decreases pairs.len(),
{
    if pairs.len() > 0 {
        lemma_plain_sums_fit(pairs.drop_last());
    }
}

/// The products that are summed can be held.
proof fn lemma_products_fit(x: i64, y: i64)
    ensures
        fits(x * x),
        fits(x * y),
        fits(y * y),
{
    assert(fits(x * x)) by (nonlinear_arith)
        requires
            -0x8000_0000_0000_0000 <= x <= 0x7FFF_FFFF_FFFF_FFFF,
    ;
    assert(fits(x * y)) by (nonlinear_arith)
        requires
            -0x8000_0000_0000_0000 <= x <= 0x7FFF_FFFF_FFFF_FFFF,
            -0x8000_0000_0000_0000 <= y <= 0x7FFF_FFFF_FFFF_FFFF,
    ;
    assert(fits(y * y)) by (nonlinear_arith)
        requires
            -0x8000_0000_0000_0000 <= y <= 0x7FFF_FFFF_FFFF_FFFF,
    ;
}

/// Sums over one pairing more.
proof fn lemma_sum_one_more(pairs: Seq<Pairing>, i: int)
    requires
        0 <= i < pairs.len(),
    ensures
        ({
            let p = pairs[i];
            let before = pairs.take(i);
            let after = pairs.take(i + 1);
            &&& sum_x(after) == sum_x(before) + p.flash_us
            &&& sum_y(after) == sum_y(before) + p.offset_us
            &&& sum_xx(after) == sum_xx(before) + p.flash_us * p.flash_us
            &&& sum_xy(after) == sum_xy(before) + p.flash_us * p.offset_us
            &&& sum_yy(after) == sum_yy(before) + p.offset_us * p.offset_us
        }),
{
    assert(pairs.take(i + 1).drop_last() =~= pairs.take(i));
    assert(pairs.take(i + 1).last() == pairs[i]);
}

/// Sum pairings.
fn sum_pairs(pairs: &[Pairing]) -> (s: Sums)
    requires
        summable(pairs@),
    ensures
        sums(s, pairs@),
{
    let n: usize = pairs.len();
    let mut s: Sums = Sums {
        x: 0,
        y: 0,
        xx: 0,
        xy: 0,
        yy: 0,
        least: 0,
        greatest: 0,
        within: true,
    };
    let mut i: usize = 0;
    assert(pairs@.take(0) =~= Seq::empty());
    while i < n
        invariant
            i <= n,
            n == pairs@.len(),
            summable(pairs@),
            sums(s, pairs@.take(i as int)),
        decreases n - i,
    {
        let p: Pairing = pairs[i];
        let ghost before = pairs@.take(i as int);
        let ghost after = pairs@.take(i + 1);
        proof {
            lemma_sum_one_more(pairs@, i as int);
            lemma_products_fit(p.flash_us, p.offset_us);
            lemma_plain_sums_fit(after);
            assert(fits(sum_xx(after)) && fits(sum_xy(after)) && fits(sum_yy(after)));
            assert(after.drop_last() =~= before);
            assert(after.last() == p);
        }
        let x: i128 = p.flash_us as i128;
        let y: i128 = p.offset_us as i128;
        let ghost was = s;
        s.x = s.x + x;
        s.y = s.y + y;
        s.xx = s.xx + x * x;
        s.xy = s.xy + x * y;
        s.yy = s.yy + y * y;
        if i == 0 || p.offset_us < s.least {
            s.least = p.offset_us;
        }
        if i == 0 || p.offset_us > s.greatest {
            s.greatest = p.offset_us;
        }
        if p.offset_us < -AV1_BUDGET_US || p.offset_us > AV1_BUDGET_US {
            s.within = false;
        }
        assert(s.within == (forall|k: int|
            0 <= k < i + 1 ==> apart((#[trigger] after[k]).offset_us as int, 0) <= AV1_BUDGET_US))
            by {
            assert forall|k: int| 0 <= k < i implies #[trigger] after[k] == before[k] by {}
            assert(after[i as int] == p);
            if was.within && s.within {
                assert forall|k: int| 0 <= k < i + 1 implies apart(
                    (#[trigger] after[k]).offset_us as int,
                    0,
                ) <= AV1_BUDGET_US by {
                    if k < i {
                        assert(before[k] == after[k]);
                    }
                }
            }
            if !was.within {
                let k = choose|k: int|
                    0 <= k < i && apart((#[trigger] before[k]).offset_us as int, 0)
                        > AV1_BUDGET_US;
                assert(after[k] == before[k]);
            }
        }
        assert(sums(s, after));
        i = i + 1;
    }
    assert(pairs@.take(n as int) =~= pairs@);
    s
}

/// How the offsets of some pairings behave, if there are any.
pub fn summarize(pairs: &[Pairing]) -> (r: Option<Report>)
    requires
        summable(pairs@),
    ensures
        r is None <==> pairs@.len() == 0,
        r matches Some(report) ==> reports(report, pairs@),
{
    let n: usize = pairs.len();
    if n == 0 {
        return None;
    }
    let s: Sums = sum_pairs(pairs);
    let count: i128 = n as i128;
    proof {
        lemma_den_is_not_negative(pairs@);
        lemma_spread_is_not_negative(pairs@);
        let (x, y) = (sum_x(pairs@), sum_y(pairs@));
        assert(0 <= x * x && 0 <= y * y) by (nonlinear_arith);
    }
    let den: i128 = count * s.xx - s.x * s.x;
    let over: i128 = count * s.xy - s.x * s.y;
    let span: i128 = pairs[n - 1].flash_us as i128 - pairs[0].flash_us as i128;
    let (drift_num, drift_den): (i128, i128) = if n < 2 || den == 0 {
        (0, 1)
    } else {
        (over * span, den)
    };
    let drift_size: i128 = if drift_num < 0 {
        -drift_num
    } else {
        drift_num
    };
    Some(
        Report {
            n,
            sum_us: s.y,
            min_us: s.least,
            max_us: s.greatest,
            spread: count * s.yy - s.y * s.y,
            drift_num,
            drift_den,
            av1_pass: s.within,
            av2_pass: drift_size <= AV2_DRIFT_US as i128 * drift_den,
        },
    )
}

/// The change's lower number is not negative: the squares of the times exceed the square of their
/// sum.
proof fn lemma_den_is_not_negative(pairs: Seq<Pairing>)
    ensures
        pairs.len() * sum_xx(pairs) - sum_x(pairs) * sum_x(pairs) >= 0,
    decreases pairs.len(),
{
    if pairs.len() > 0 {
        let before = pairs.drop_last();
        let n = before.len() as int;
        let x = pairs.last().flash_us as int;
        let s = sum_x(before);
        let q = sum_xx(before);
        lemma_den_is_not_negative(before);
        assert(sum_x(pairs) == s + x);
        assert(sum_xx(pairs) == q + x * x);
        lemma_square_gap(before, x);
        assert((n + 1) * (q + x * x) - (s + x) * (s + x) == (n * q - s * s) + (q - 2 * s * x + n * (
        x * x))) by (nonlinear_arith);
    }
}

/// Squares of differences add up to no less than zero.
proof fn lemma_square_gap(pairs: Seq<Pairing>, x: int)
    ensures
        sum_xx(pairs) - 2 * sum_x(pairs) * x + pairs.len() * (x * x) >= 0,
    decreases pairs.len(),
{
    if pairs.len() > 0 {
        let before = pairs.drop_last();
        lemma_square_gap(before, x);
        let n = before.len() as int;
        let y = pairs.last().flash_us as int;
        let s = sum_x(before);
        let q = sum_xx(before);
        assert(sum_x(pairs) == s + y);
        assert(sum_xx(pairs) == q + y * y);
        assert((q + y * y) - 2 * (s + y) * x + (n + 1) * (x * x) == (q - 2 * s * x + n * (x * x)) + (
        y - x) * (y - x)) by (nonlinear_arith);
        assert((y - x) * (y - x) >= 0) by (nonlinear_arith);
    } else {
        assert(2 * sum_x(pairs) * x == 0) by (nonlinear_arith)
            requires
                sum_x(pairs) == 0,
        ;
        assert(pairs.len() * (x * x) == 0) by (nonlinear_arith)
            requires
                pairs.len() == 0,
        ;
    }
}

/// The square of the deviation is not negative.
proof fn lemma_spread_is_not_negative(pairs: Seq<Pairing>)
    ensures
        pairs.len() * sum_yy(pairs) - sum_y(pairs) * sum_y(pairs) >= 0,
{
    let turned = pairs.map_values(|p: Pairing| Pairing { flash_us: p.offset_us, offset_us: 0 });
    lemma_turned_sums(pairs);
    lemma_den_is_not_negative(turned);
}

/// The offsets' sums are those of times that are as far.
proof fn lemma_turned_sums(pairs: Seq<Pairing>)
    ensures
        ({
            let turned = pairs.map_values(
                |p: Pairing| Pairing { flash_us: p.offset_us, offset_us: 0 },
            );
            sum_x(turned) == sum_y(pairs) && sum_xx(turned) == sum_yy(pairs)
        }),
    decreases pairs.len(),
{
    let turned = pairs.map_values(|p: Pairing| Pairing { flash_us: p.offset_us, offset_us: 0 });
    if pairs.len() > 0 {
        lemma_turned_sums(pairs.drop_last());
        assert(turned.drop_last() =~= pairs.drop_last().map_values(
            |p: Pairing| Pairing { flash_us: p.offset_us, offset_us: 0 },
        ));
    }
}

/// Law: the offset of a recording in which every click is as late as every other changes by
/// nothing.
pub proof fn lemma_constant_offset_does_not_drift(pairs: Seq<Pairing>, offset: i64)
    requires
        forall|i: int| 0 <= i < pairs.len() ==> (#[trigger] pairs[i]).offset_us == offset,
    ensures
        drift(pairs).0 == 0,
        drift(pairs).1 > 0,
{
    lemma_constant_sums(pairs, offset as int);
    lemma_den_is_not_negative(pairs);
    let n = pairs.len() as int;
    let x = sum_x(pairs);
    let c = offset as int;
    assert(n * sum_xy(pairs) - x * sum_y(pairs) == 0) by (nonlinear_arith)
        requires
            sum_xy(pairs) == c * x,
            sum_y(pairs) == c * n,
    ;
    assert(0 * (pairs.last().flash_us - pairs[0].flash_us) == 0) by (nonlinear_arith);
}

/// Sums over pairings with one and the same offset.
proof fn lemma_constant_sums(pairs: Seq<Pairing>, c: int)
    requires
        forall|i: int| 0 <= i < pairs.len() ==> (#[trigger] pairs[i]).offset_us == c,
    ensures
        sum_xy(pairs) == c * sum_x(pairs),
        sum_y(pairs) == c * pairs.len(),
    decreases pairs.len(),
{
    if pairs.len() > 0 {
        let before = pairs.drop_last();
        assert forall|i: int| 0 <= i < before.len() implies (#[trigger] before[i]).offset_us
            == c by {
            assert(before[i] == pairs[i]);
        }
        lemma_constant_sums(before, c);
        let x = pairs.last().flash_us as int;
        assert(pairs.last() == pairs[pairs.len() - 1]);
        let s = sum_x(before);
        let n = before.len() as int;
        assert(c * s + x * c == c * (s + x)) by (nonlinear_arith);
        assert(c * n + c == c * (n + 1)) by (nonlinear_arith);
    } else {
        assert(c * sum_x(pairs) == 0) by (nonlinear_arith)
            requires
                sum_x(pairs) == 0,
        ;
        assert(c * pairs.len() == 0) by (nonlinear_arith)
            requires
                pairs.len() == 0,
        ;
    }
}

} // verus!
