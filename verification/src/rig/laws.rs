//! What a measurement says of a recording.

use vstd::prelude::*;

use crate::rig::analysis::{
    apart, drift, greatest_offset, least_offset, lemma_nearest_is_nearest, nearest_click, paired,
    pairings, reports, search, sum_of, sum_x, sum_xx, sum_xy, sum_y, sum_yy, Pairing, Report,
};

verus! {

/// Whether two flashes came at different times.
pub open spec fn times_differ(pairs: Seq<Pairing>) -> bool {
    exists|i: int, j: int|
        0 <= i < pairs.len() && 0 <= j < pairs.len() && (#[trigger] pairs[i]).flash_us != (
        #[trigger] pairs[j]).flash_us
}

/// Squares of differences add up to zero only where there are none.
proof fn lemma_gap_of_squares(pairs: Seq<Pairing>, x: int)
    ensures
        sum_xx(pairs) - 2 * sum_x(pairs) * x + pairs.len() * (x * x) >= 0,
        sum_xx(pairs) - 2 * sum_x(pairs) * x + pairs.len() * (x * x) == 0 ==> forall|i: int|
            0 <= i < pairs.len() ==> (#[trigger] pairs[i]).flash_us == x,
    decreases pairs.len(),
{
    if pairs.len() > 0 {
        let before = pairs.drop_last();
        lemma_gap_of_squares(before, x);
        let n = before.len() as int;
        let y = pairs.last().flash_us as int;
        let s = sum_x(before);
        let q = sum_xx(before);
        assert(sum_x(pairs) == s + y);
        assert(sum_xx(pairs) == q + y * y);
        assert((q + y * y) - 2 * (s + y) * x + (n + 1) * (x * x) == (q - 2 * s * x + n * (x * x)) + (
        y - x) * (y - x)) by (nonlinear_arith);
        assert((y - x) * (y - x) >= 0) by (nonlinear_arith);
        if (y - x) * (y - x) == 0 {
            assert(y == x) by (nonlinear_arith)
                requires
                    (y - x) * (y - x) == 0,
            ;
        }
        if sum_xx(pairs) - 2 * sum_x(pairs) * x + pairs.len() * (x * x) == 0 {
            assert forall|i: int| 0 <= i < pairs.len() implies (#[trigger] pairs[i]).flash_us
                == x by {
                if i < n {
                    assert(before[i] == pairs[i]);
                }
            }
        }
    } else {
        assert(2 * sum_x(pairs) * x == 0) by (nonlinear_arith)
            requires
                sum_x(pairs) == 0,
        ;
        assert(pairs.len() * (x * x) == 0) by (nonlinear_arith)
            requires
                pairs.len() == 0,
        ;
    }
}

/// The change's lower number is above zero exactly where two times differ.
proof fn lemma_den_is_positive(pairs: Seq<Pairing>)
    ensures
        pairs.len() * sum_xx(pairs) - sum_x(pairs) * sum_x(pairs) >= 0,
        times_differ(pairs) <==> pairs.len() * sum_xx(pairs) - sum_x(pairs) * sum_x(pairs) > 0,
    decreases pairs.len(),
{
    if pairs.len() > 0 {
        let before = pairs.drop_last();
        let n = before.len() as int;
        let x = pairs.last().flash_us as int;
        let s = sum_x(before);
        let q = sum_xx(before);
        lemma_den_is_positive(before);
        lemma_gap_of_squares(before, x);
        assert(sum_x(pairs) == s + x);
        assert(sum_xx(pairs) == q + x * x);
        assert((n + 1) * (q + x * x) - (s + x) * (s + x) == (n * q - s * s) + (q - 2 * s * x + n * (
        x * x))) by (nonlinear_arith);
        let den = pairs.len() * sum_xx(pairs) - sum_x(pairs) * sum_x(pairs);
        assert(den == (n * q - s * s) + (q - 2 * s * x + n * (x * x)));
        if times_differ(pairs) && den == 0 {
            let (i, j) = choose|i: int, j: int|
                0 <= i < pairs.len() && 0 <= j < pairs.len() && (#[trigger] pairs[i]).flash_us != (
                #[trigger] pairs[j]).flash_us;
            if i < n {
                assert(before[i] == pairs[i]);
            }
            if j < n {
                assert(before[j] == pairs[j]);
            }
        }
        if !times_differ(pairs) {
            assert forall|i: int, j: int| 0 <= i < n && 0 <= j < n implies (
            #[trigger] before[i]).flash_us == (#[trigger] before[j]).flash_us by {
                assert(before[i] == pairs[i] && before[j] == pairs[j]);
            }
            lemma_same_times(before, x, pairs);
        }
    } else {
        assert(sum_x(pairs) * sum_x(pairs) == 0) by (nonlinear_arith)
            requires
                sum_x(pairs) == 0,
        ;
        assert(pairs.len() * sum_xx(pairs) == 0) by (nonlinear_arith)
            requires
                pairs.len() == 0,
        ;
    }
}

/// Times that are all the same differ from the last by nothing.
proof fn lemma_same_times(before: Seq<Pairing>, x: int, pairs: Seq<Pairing>)
    requires
        pairs.len() == before.len() + 1,
        before == pairs.drop_last(),
        x == pairs.last().flash_us,
        !times_differ(pairs),
    ensures
        sum_xx(before) - 2 * sum_x(before) * x + before.len() * (x * x) == 0,
{
    assert forall|i: int| 0 <= i < before.len() implies (#[trigger] before[i]).flash_us == x by {
        assert(before[i] == pairs[i]);
        assert(pairs[i].flash_us == pairs[pairs.len() - 1].flash_us);
    }
    lemma_sums_of_same(before, x);
    let n = before.len() as int;
    assert(n * (x * x) - 2 * (n * x) * x + n * (x * x) == 0) by (nonlinear_arith);
}

/// Sums over times that are all the same.
proof fn lemma_sums_of_same(pairs: Seq<Pairing>, x: int)
    requires
        forall|i: int| 0 <= i < pairs.len() ==> (#[trigger] pairs[i]).flash_us == x,
    ensures
        sum_x(pairs) == pairs.len() * x,
        sum_xx(pairs) == pairs.len() * (x * x),
    decreases pairs.len(),
{
    if pairs.len() > 0 {
        let before = pairs.drop_last();
        assert forall|i: int| 0 <= i < before.len() implies (#[trigger] before[i]).flash_us == x by {
            assert(before[i] == pairs[i]);
        }
        lemma_sums_of_same(before, x);
        let n = before.len() as int;
        assert(pairs.last() == pairs[pairs.len() - 1]);
        assert((n + 1) * x == n * x + x) by (nonlinear_arith);
        assert((n + 1) * (x * x) == n * (x * x) + x * x) by (nonlinear_arith);
    } else {
        assert(0 * x == 0 && 0 * (x * x) == 0) by (nonlinear_arith);
    }
}

/// Whether offsets lie on a straight line: at the time `x` an offset of `(a + p * x) / q`.
pub open spec fn on_a_line(pairs: Seq<Pairing>, a: int, p: int, q: int) -> bool {
    forall|i: int|
        0 <= i < pairs.len() ==> q * (#[trigger] pairs[i]).offset_us == a + p * pairs[i].flash_us
}

/// Sums over offsets on a straight line.
proof fn lemma_line_sums(pairs: Seq<Pairing>, a: int, p: int, q: int)
    requires
        on_a_line(pairs, a, p, q),
    ensures
        q * sum_y(pairs) == a * pairs.len() + p * sum_x(pairs),
        q * sum_xy(pairs) == a * sum_x(pairs) + p * sum_xx(pairs),
    decreases pairs.len(),
{
    if pairs.len() > 0 {
        let before = pairs.drop_last();
        assert forall|i: int| 0 <= i < before.len() implies q * (#[trigger] before[i]).offset_us == a
            + p * before[i].flash_us by {
            assert(before[i] == pairs[i]);
        }
        lemma_line_sums(before, a, p, q);
        let last = pairs[pairs.len() - 1];
        let (x, y) = (last.flash_us as int, last.offset_us as int);
        let n = before.len() as int;
        let (sx, sy, sxx, sxy) = (sum_x(before), sum_y(before), sum_xx(before), sum_xy(before));
        assert(q * y == a + p * x);
        assert(sum_y(pairs) == sy + y && sum_x(pairs) == sx + x);
        assert(sum_xy(pairs) == sxy + x * y && sum_xx(pairs) == sxx + x * x);
        assert(q * (sy + y) == a * (n + 1) + p * (sx + x)) by (nonlinear_arith)
            requires
                q * sy == a * n + p * sx,
                q * y == a + p * x,
        ;
        assert(q * (x * y) == (q * y) * x) by (nonlinear_arith);
        assert((a + p * x) * x == a * x + p * (x * x)) by (nonlinear_arith);
        assert(q * (sxy + x * y) == q * sxy + q * (x * y)) by (nonlinear_arith);
        assert(a * (sx + x) == a * sx + a * x) by (nonlinear_arith);
        assert(p * (sxx + x * x) == p * sxx + p * (x * x)) by (nonlinear_arith);
    } else {
        assert(q * 0 == 0 && a * 0 == 0 && p * 0 == 0) by (nonlinear_arith);
    }
}

/// Law: offsets that change evenly drift by what they change. On a straight line of any slope `p / q`,
/// rising or falling, the drift is the slope times the time from the first flash to the last; and the
/// drift passes exactly where that is at most five milliseconds either way.
pub proof fn lemma_drift_is_slope_times_span(
    pairs: Seq<Pairing>,
    r: Report,
    a: int,
    p: int,
    q: int,
)
    requires
        q > 0,
        on_a_line(pairs, a, p, q),
        times_differ(pairs),
        reports(r, pairs),
    ensures
        ({
            let span = pairs.last().flash_us - pairs[0].flash_us;
            &&& r.drift_den > 0
            &&& q * r.drift_num == (p * span) * r.drift_den
            &&& r.av2_pass <==> -5_000 * q <= p * span <= 5_000 * q
        }),
{
    let n = pairs.len() as int;
    let span = pairs.last().flash_us - pairs[0].flash_us;
    let (sx, sy, sxx, sxy) = (sum_x(pairs), sum_y(pairs), sum_xx(pairs), sum_xy(pairs));
    let den = n * sxx - sx * sx;
    lemma_line_sums(pairs, a, p, q);
    lemma_den_is_positive(pairs);
    let (i, j) = choose|i: int, j: int|
        0 <= i < pairs.len() && 0 <= j < pairs.len() && (#[trigger] pairs[i]).flash_us != (
        #[trigger] pairs[j]).flash_us;
    assert(n >= 2);
    let over = n * sxy - sx * sy;
    assert(q * (n * sxy - sx * sy) == n * (q * sxy) - sx * (q * sy)) by (nonlinear_arith);
    assert(n * (a * sx + p * sxx) - sx * (a * n + p * sx) == p * (n * sxx - sx * sx))
        by (nonlinear_arith);
    assert(q * over == p * den);
    let num = over * span;
    assert(drift(pairs) == (num, den));
    assert(q * num == (p * span) * den) by (nonlinear_arith)
        requires
            q * over == p * den,
            num == over * span,
    ;
    let change = p * span;
    assert(num <= 5_000 * den <==> change <= 5_000 * q) by (nonlinear_arith)
        requires
            q * num == change * den,
            q > 0,
            den > 0,
    ;
    assert(-num <= 5_000 * den <==> -change <= 5_000 * q) by (nonlinear_arith)
        requires
            q * num == change * den,
            q > 0,
            den > 0,
    ;
}

/// Law: where all flashes came at one time, or there is only one, there is no drift to speak of.
pub proof fn lemma_no_time_no_drift(pairs: Seq<Pairing>, r: Report)
    requires
        !times_differ(pairs),
        reports(r, pairs),
    ensures
        r.drift_num == 0,
        r.drift_den > 0,
        r.av2_pass,
{
    lemma_den_is_positive(pairs);
}

/// Pairings that are as much too early as others are too late.
pub open spec fn mirrored(pairs: Seq<Pairing>) -> Seq<Pairing> {
    pairs.map_values(
        |p: Pairing| Pairing { flash_us: p.flash_us, offset_us: (-p.offset_us) as i64 },
    )
}

/// Sums over mirrored pairings.
proof fn lemma_mirrored_sums(pairs: Seq<Pairing>)
    requires
        forall|i: int| 0 <= i < pairs.len() ==> (#[trigger] pairs[i]).offset_us > i64::MIN,
    ensures
        sum_x(mirrored(pairs)) == sum_x(pairs),
        sum_xx(mirrored(pairs)) == sum_xx(pairs),
        sum_y(mirrored(pairs)) == -sum_y(pairs),
        sum_xy(mirrored(pairs)) == -sum_xy(pairs),
        sum_yy(mirrored(pairs)) == sum_yy(pairs),
    decreases pairs.len(),
{
    if pairs.len() > 0 {
        let before = pairs.drop_last();
        assert forall|i: int| 0 <= i < before.len() implies (#[trigger] before[i]).offset_us
            > i64::MIN by {
            assert(before[i] == pairs[i]);
        }
        lemma_mirrored_sums(before);
        assert(mirrored(pairs).drop_last() =~= mirrored(before));
        let last = pairs[pairs.len() - 1];
        let (x, y) = (last.flash_us as int, last.offset_us as int);
        assert(mirrored(pairs).last().offset_us == -y);
        assert(x * (-y) == -(x * y)) by (nonlinear_arith);
        assert((-y) * (-y) == y * y) by (nonlinear_arith);
    }
}

/// The least and the greatest offset are offsets, and no other is beyond them.
proof fn lemma_extremes(pairs: Seq<Pairing>)
    requires
        pairs.len() > 0,
    ensures
        forall|i: int|
            0 <= i < pairs.len() ==> least_offset(pairs) <= (#[trigger] pairs[i]).offset_us
                <= greatest_offset(pairs),
        exists|i: int| 0 <= i < pairs.len() && (#[trigger] pairs[i]).offset_us == least_offset(pairs),
        exists|i: int|
            0 <= i < pairs.len() && (#[trigger] pairs[i]).offset_us == greatest_offset(pairs),
    decreases pairs.len(),
{
    let n = pairs.len() as int;
    if n == 1 {
        assert(pairs[0].offset_us == least_offset(pairs));
        assert(pairs[0].offset_us == greatest_offset(pairs));
    } else {
        let before = pairs.drop_last();
        lemma_extremes(before);
        let i = choose|i: int|
            0 <= i < before.len() && (#[trigger] before[i]).offset_us == least_offset(before);
        let j = choose|j: int|
            0 <= j < before.len() && (#[trigger] before[j]).offset_us == greatest_offset(before);
        assert(pairs[i] == before[i] && pairs[j] == before[j]);
        assert(pairs[n - 1] == pairs.last());
        assert forall|k: int| 0 <= k < n implies least_offset(pairs) <= (
        #[trigger] pairs[k]).offset_us <= greatest_offset(pairs) by {
            if k < n - 1 {
                assert(before[k] == pairs[k]);
            }
        }
    }
}

/// Law: the least and the greatest offset of a report are offsets of the recording, and every offset
/// lies between them; the report counts every pairing; and it passes for single offsets exactly where
/// each is at most 16.7 milliseconds either way.
pub proof fn lemma_report_bounds_the_offsets(pairs: Seq<Pairing>, r: Report)
    requires
        pairs.len() > 0,
        reports(r, pairs),
    ensures
        r.n == pairs.len(),
        forall|i: int|
            0 <= i < pairs.len() ==> r.min_us <= (#[trigger] pairs[i]).offset_us <= r.max_us,
        exists|i: int| 0 <= i < pairs.len() && (#[trigger] pairs[i]).offset_us == r.min_us,
        exists|i: int| 0 <= i < pairs.len() && (#[trigger] pairs[i]).offset_us == r.max_us,
        r.av1_pass <==> -16_700 <= r.min_us && r.max_us <= 16_700,
{
    lemma_extremes(pairs);
    let i = choose|i: int| 0 <= i < pairs.len() && (#[trigger] pairs[i]).offset_us == r.min_us;
    let j = choose|j: int| 0 <= j < pairs.len() && (#[trigger] pairs[j]).offset_us == r.max_us;
    assert(apart(pairs[i].offset_us as int, 0) <= 16_700 || !r.av1_pass);
    assert(apart(pairs[j].offset_us as int, 0) <= 16_700 || !r.av1_pass);
}

/// Law: early is as bad as late. A recording whose clicks are as much too early as another's are too
/// late drifts as much the other way, has the opposite mean and extremes and the same spread, and
/// passes where the other does.
pub proof fn lemma_early_is_as_bad_as_late(pairs: Seq<Pairing>, r: Report, other: Report)
    requires
        pairs.len() > 0,
        forall|i: int| 0 <= i < pairs.len() ==> (#[trigger] pairs[i]).offset_us > i64::MIN,
        reports(r, pairs),
        reports(other, mirrored(pairs)),
    ensures
        other.n == r.n,
        other.sum_us == -r.sum_us,
        other.min_us == -r.max_us,
        other.max_us == -r.min_us,
        other.spread == r.spread,
        other.drift_num == -r.drift_num,
        other.drift_den == r.drift_den,
        other.av1_pass == r.av1_pass,
        other.av2_pass == r.av2_pass,
{
    let turned = mirrored(pairs);
    let n = pairs.len() as int;
    lemma_mirrored_sums(pairs);
    lemma_report_bounds_the_offsets(pairs, r);
    lemma_report_bounds_the_offsets(turned, other);
    let i = choose|i: int| 0 <= i < n && (#[trigger] pairs[i]).offset_us == r.min_us;
    let j = choose|j: int| 0 <= j < n && (#[trigger] pairs[j]).offset_us == r.max_us;
    assert(turned[i].offset_us == -r.min_us && turned[j].offset_us == -r.max_us);
    let k = choose|k: int| 0 <= k < n && (#[trigger] turned[k]).offset_us == other.min_us;
    let l = choose|l: int| 0 <= l < n && (#[trigger] turned[l]).offset_us == other.max_us;
    assert(turned[k].offset_us == -pairs[k].offset_us && turned[l].offset_us == -pairs[l].offset_us);
    let (sx, sy, sxy, syy) = (sum_x(pairs), sum_y(pairs), sum_xy(pairs), sum_yy(pairs));
    let span = pairs.last().flash_us - pairs[0].flash_us;
    assert(turned.last().flash_us == pairs.last().flash_us && turned[0].flash_us
        == pairs[0].flash_us);
    assert(n * (-sxy) - sx * (-sy) == -(n * sxy - sx * sy)) by (nonlinear_arith);
    let over = n * sxy - sx * sy;
    assert((-over) * span == -(over * span)) by (nonlinear_arith);
    assert((-sy) * (-sy) == sy * sy) by (nonlinear_arith);
}

/// Pairings that all come `c` later.
pub open spec fn delayed(pairs: Seq<Pairing>, c: int) -> Seq<Pairing> {
    pairs.map_values(
        |p: Pairing| Pairing { flash_us: p.flash_us, offset_us: (p.offset_us + c) as i64 },
    )
}

/// Sums over delayed pairings.
proof fn lemma_delayed_sums(pairs: Seq<Pairing>, c: int)
    requires
        forall|i: int|
            0 <= i < pairs.len() ==> i64::MIN <= (#[trigger] pairs[i]).offset_us + c <= i64::MAX,
    ensures
        sum_x(delayed(pairs, c)) == sum_x(pairs),
        sum_xx(delayed(pairs, c)) == sum_xx(pairs),
        sum_y(delayed(pairs, c)) == sum_y(pairs) + c * pairs.len(),
        sum_xy(delayed(pairs, c)) == sum_xy(pairs) + c * sum_x(pairs),
        sum_yy(delayed(pairs, c)) == sum_yy(pairs) + 2 * c * sum_y(pairs) + c * c * pairs.len(),
    decreases pairs.len(),
{
    if pairs.len() > 0 {
        let before = pairs.drop_last();
        assert forall|i: int| 0 <= i < before.len() implies i64::MIN <= (
        #[trigger] before[i]).offset_us + c <= i64::MAX by {
            assert(before[i] == pairs[i]);
        }
        lemma_delayed_sums(before, c);
        assert(delayed(pairs, c).drop_last() =~= delayed(before, c));
        let last = pairs[pairs.len() - 1];
        let (x, y) = (last.flash_us as int, last.offset_us as int);
        let n = before.len() as int;
        let (sx, sy) = (sum_x(before), sum_y(before));
        assert(delayed(pairs, c).last().offset_us == y + c);
        assert(c * (n + 1) == c * n + c) by (nonlinear_arith);
        assert(x * (y + c) == x * y + c * x) by (nonlinear_arith);
        assert(c * (sx + x) == c * sx + c * x) by (nonlinear_arith);
        assert((y + c) * (y + c) == y * y + 2 * c * y + c * c) by (nonlinear_arith);
        assert(2 * c * (sy + y) == 2 * c * sy + 2 * c * y) by (nonlinear_arith);
        assert(c * c * (n + 1) == c * c * n + c * c) by (nonlinear_arith);
    } else {
        assert(c * 0 == 0 && 2 * c * 0 == 0 && c * c * 0 == 0) by (nonlinear_arith);
    }
}

/// Law: a delay of every click moves the mean and the extremes by as much, and changes neither the
/// spread nor the drift.
pub proof fn lemma_delay_moves_the_mean(pairs: Seq<Pairing>, c: int, r: Report, other: Report)
    requires
        pairs.len() > 0,
        forall|i: int|
            0 <= i < pairs.len() ==> i64::MIN <= (#[trigger] pairs[i]).offset_us + c <= i64::MAX,
        reports(r, pairs),
        reports(other, delayed(pairs, c)),
    ensures
        other.sum_us == r.sum_us + c * r.n,
        other.min_us == r.min_us + c,
        other.max_us == r.max_us + c,
        other.spread == r.spread,
        other.drift_num == r.drift_num,
        other.drift_den == r.drift_den,
        other.av2_pass == r.av2_pass,
{
    let moved = delayed(pairs, c);
    let n = pairs.len() as int;
    lemma_delayed_sums(pairs, c);
    lemma_report_bounds_the_offsets(pairs, r);
    lemma_report_bounds_the_offsets(moved, other);
    let i = choose|i: int| 0 <= i < n && (#[trigger] pairs[i]).offset_us == r.min_us;
    let j = choose|j: int| 0 <= j < n && (#[trigger] pairs[j]).offset_us == r.max_us;
    assert(moved[i].offset_us == r.min_us + c && moved[j].offset_us == r.max_us + c);
    let k = choose|k: int| 0 <= k < n && (#[trigger] moved[k]).offset_us == other.min_us;
    let l = choose|l: int| 0 <= l < n && (#[trigger] moved[l]).offset_us == other.max_us;
    assert(moved[k].offset_us == pairs[k].offset_us + c && moved[l].offset_us == pairs[l].offset_us
        + c);
    let (sx, sy, sxy, syy) = (sum_x(pairs), sum_y(pairs), sum_xy(pairs), sum_yy(pairs));
    assert(moved.last().flash_us == pairs.last().flash_us && moved[0].flash_us
        == pairs[0].flash_us);
    assert(n * (sxy + c * sx) - sx * (sy + c * n) == n * sxy - sx * sy) by (nonlinear_arith);
    assert(n * (syy + 2 * c * sy + c * c * n) - (sy + c * n) * (sy + c * n) == n * syy - sy * sy)
        by (nonlinear_arith);
}

/// Law: the spread of two offsets is the square of their difference.
pub proof fn lemma_spread_of_two(pairs: Seq<Pairing>, r: Report)
    requires
        pairs.len() == 2,
        reports(r, pairs),
    ensures
        r.sum_us == pairs[0].offset_us + pairs[1].offset_us,
        r.spread == (pairs[1].offset_us - pairs[0].offset_us) * (pairs[1].offset_us
            - pairs[0].offset_us),
{
    reveal_with_fuel(sum_of, 3);
    let (a, b) = (pairs[0].offset_us as int, pairs[1].offset_us as int);
    let first = pairs.drop_last();
    assert(first.last() == pairs[0] && pairs.last() == pairs[1]);
    assert(sum_y(pairs) == a + b);
    assert(sum_yy(pairs) == a * a + b * b);
    assert(2 * (a * a + b * b) - (a + b) * (a + b) == (b - a) * (b - a)) by (nonlinear_arith);
}

/// How far each offset is from the mean, times the number of offsets, squared and summed.
pub open spec fn squared_misses(pairs: Seq<Pairing>, n: int, mean: int) -> int
    decreases pairs.len(),
{
    if pairs.len() == 0 {
        0
    } else {
        let miss = n * pairs.last().offset_us - mean;
        squared_misses(pairs.drop_last(), n, mean) + miss * miss
    }
}

/// Squared misses by sums.
proof fn lemma_squared_misses(pairs: Seq<Pairing>, n: int, mean: int)
    ensures
        squared_misses(pairs, n, mean) == n * n * sum_yy(pairs) - 2 * n * mean * sum_y(pairs) + mean
            * mean * pairs.len(),
    decreases pairs.len(),
{
    if pairs.len() > 0 {
        let before = pairs.drop_last();
        lemma_squared_misses(before, n, mean);
        let y = pairs.last().offset_us as int;
        let (sy, syy) = (sum_y(before), sum_yy(before));
        let k = before.len() as int;
        assert((n * y - mean) * (n * y - mean) == n * n * (y * y) - 2 * n * mean * y + mean * mean)
            by (nonlinear_arith);
        assert(n * n * (syy + y * y) == n * n * syy + n * n * (y * y)) by (nonlinear_arith);
        assert(2 * n * mean * (sy + y) == 2 * n * mean * sy + 2 * n * mean * y)
            by (nonlinear_arith);
        assert(mean * mean * (k + 1) == mean * mean * k + mean * mean) by (nonlinear_arith);
    } else {
        assert(n * n * 0 == 0 && 2 * n * mean * 0 == 0 && mean * mean * 0 == 0)
            by (nonlinear_arith);
    }
}

/// Law: the spread is that of the offsets about their mean: `n` times it is the sum of the squares by
/// which `n` times each offset misses the sum of all.
pub proof fn lemma_spread_is_about_the_mean(pairs: Seq<Pairing>, r: Report)
    requires
        pairs.len() > 0,
        reports(r, pairs),
    ensures
        r.n * r.spread == squared_misses(pairs, pairs.len() as int, r.sum_us as int),
{
    let n = pairs.len() as int;
    let (sy, syy) = (sum_y(pairs), sum_yy(pairs));
    lemma_squared_misses(pairs, n, sy);
    assert(n * (n * syy - sy * sy) == n * n * syy - 2 * n * sy * sy + sy * sy * n)
        by (nonlinear_arith);
}

/// Whether some click is near enough to a flash.
pub open spec fn is_answered(clicks: Seq<i64>, flash: int, most: int) -> bool {
    exists|k: int| 0 <= k < clicks.len() && apart(#[trigger] clicks[k] as int, flash) <= most
}

/// Law: no flash is passed over that a click answers: the pairings are those of the flashes with a
/// click near enough, one each, in order.
pub proof fn lemma_answered_flashes_are_paired(flashes: Seq<i64>, clicks: Seq<i64>, most: int)
    ensures
        pairings(flashes, clicks, most).map_values(|p: Pairing| p.flash_us) == flashes.filter(
            |f: i64| is_answered(clicks, f as int, most),
        ),
    decreases flashes.len(),
{
    reveal(Seq::filter);
    let answered = |f: i64| is_answered(clicks, f as int, most);
    let all = pairings(flashes, clicks, most).map_values(|p: Pairing| p.flash_us);
    if flashes.len() > 0 {
        let before = flashes.drop_last();
        let f = flashes.last();
        lemma_answered_flashes_are_paired(before, clicks, most);
        let was = pairings(before, clicks, most).map_values(|p: Pairing| p.flash_us);
        if clicks.len() > 0 {
            let k = nearest_click(clicks, f as int, clicks.len() as int);
            lemma_nearest_is_nearest(clicks, f as int, clicks.len() as int);
            if answered(f) {
                let near = choose|k: int|
                    0 <= k < clicks.len() && apart(#[trigger] clicks[k] as int, f as int) <= most;
                assert(apart(clicks[k] as int, f as int) <= apart(clicks[near] as int, f as int));
            } else {
                assert(apart(clicks[k] as int, f as int) > most);
            }
        }
        if answered(f) {
            assert(paired(clicks, f, most).len() == 1);
            assert(all =~= was.push(f));
        } else {
            assert(all =~= was);
        }
    } else {
        assert(all =~= flashes.filter(answered));
    }
}

/// Whether a value rises to a threshold at sample `k`.
pub open spec fn rises_at(samples: Seq<(i64, i64)>, threshold: int, k: int) -> bool {
    &&& 1 <= k < samples.len()
    &&& samples[k - 1].1 < threshold
    &&& samples[k].1 >= threshold
}

/// Whether the edge at sample `k` was found, or one was found shortly before it.
pub open spec fn is_accounted_for(
    samples: Seq<(i64, i64)>,
    found: Seq<i64>,
    rest: int,
    k: int,
) -> bool {
    ||| found.contains(samples[k].0)
    ||| exists|i: int|
        0 <= i < found.len() && samples[k].0 - #[trigger] found[i] < rest && exists|j: int|
            0 <= j < k && (#[trigger] samples[j]).0 == found[i]
}

/// Law: no edge is passed over but those that come too soon. Wherever the value rises to the
/// threshold, an edge is found, unless one was found at an earlier sample less than `rest` before.
pub proof fn lemma_no_edge_is_missed(
    samples: Seq<(i64, i64)>,
    threshold: int,
    rest: int,
    k: int,
)
    requires
        rises_at(samples, threshold, k),
    ensures
        is_accounted_for(samples, search(samples, threshold, rest).found, rest, k),
    decreases samples.len(),
{
    let before = samples.drop_last();
    let was = search(before, threshold, rest).found;
    let found = search(samples, threshold, rest).found;
    let n = samples.len() - 1;
    if k < n {
        lemma_no_edge_is_missed(before, threshold, rest, k);
        assert(samples[k] == before[k]);
        if was.contains(before[k].0) {
            let i = choose|i: int| 0 <= i < was.len() && was[i] == before[k].0;
            assert(found[i] == samples[k].0);
        } else {
            let i = choose|i: int|
                0 <= i < was.len() && before[k].0 - #[trigger] was[i] < rest && exists|j: int|
                    0 <= j < k && (#[trigger] before[j]).0 == was[i];
            let j = choose|j: int| 0 <= j < k && (#[trigger] before[j]).0 == was[i];
            assert(found[i] == was[i]);
            assert(samples[j].0 == found[i]);
        }
    } else {
        assert(before.last() == samples[n - 1]);
        assert(search(before, threshold, rest).armed);
        if found.len() > was.len() {
            assert(found[found.len() - 1] == samples[k].0);
        } else {
            let i = was.len() - 1;
            assert(found[i] == was[i] && samples[k].0 - was[i] < rest);
            crate::rig::analysis::lemma_edges_are_apart(before, threshold, rest);
            let j = choose|j: int|
                1 <= j < before.len() && (#[trigger] before[j]).0 == was[i] && before[j].1
                    >= threshold && before[j - 1].1 < threshold;
            assert(samples[j].0 == found[i]);
        }
    }
}

} // verus!
