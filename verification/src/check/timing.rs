//! Whether the times of a clip are as they should be: in order, evenly spaced, from zero, and with
//! all tracks ending together.

use vstd::prelude::*;
use vstd::relations::{sorted_by, total_ordering};
use vstd::seq_lib::{lemma_sorted_unique, to_multiset_build, to_multiset_insert};

use crate::check::micros::{
    ints, millis3, nearest, push_millis3, push_seconds6, seconds6, size, LIMIT,
};
use crate::check::streams::{Check, CheckView, FrameRate};
use crate::text::{decimal, push_decimal};

verus! {

/// Whether times can be taken.
pub open spec fn in_reach(pts: Seq<i64>) -> bool {
    forall|i: int| 0 <= i < pts.len() ==> -LIMIT <= #[trigger] pts[i] <= LIMIT
}

/// How far the time of a frame may be off, in microseconds.
pub const CFR_TOL: i64 = 1000;

/// How far the picture's first time may be from zero, in microseconds.
pub const ORIGIN_TOL: i64 = 1000;

/// Three AAC frames, in microseconds: a frame is 1024 samples at 48 kHz.
pub const AAC_FRAMES_3: i64 = 64_000;

/// An AAC frame in milliseconds, as it is shown.
pub const AAC_FRAME_TEXT: &'static str = "21.33";

/// The time from one frame to the next, in microseconds, as a fraction. Over zero it has no end.
#[derive(Debug, Clone, Copy, PartialEq, Eq, Structural)]
pub struct Delta {
    pub num: i64,
    pub den: u32,
}

impl Delta {
    /// Whether the fraction can be taken.
    pub open spec fn wf(self) -> bool {
        &&& -2 * LIMIT <= self.num <= 2 * LIMIT
        &&& self.den == 0 ==> self.num > 0
    }
}

/// The first frame, from `i` on, that does not come after the one before.
pub open spec fn first_back(pts: Seq<i64>, i: int) -> Option<int>
    decreases pts.len() - i,
{
    if i < 1 || i >= pts.len() {
        None
    } else if pts[i] <= pts[i - 1] {
        Some(i)
    } else {
        first_back(pts, i + 1)
    }
}

/// The name of the check of a track's order.
pub open spec fn order_name(label: Seq<char>) -> Seq<char> {
    "monotonic PTS ["@ + label + "] (§0)"@
}

/// The outcome of the check of a track's order.
pub open spec fn order_outcome(label: Seq<char>, pts: Seq<i64>) -> CheckView {
    let name = order_name(label);
    if pts.len() == 0 {
        CheckView { name, pass: false, detail: "no frames extracted"@ }
    } else {
        match first_back(pts, 1) {
            Some(i) => CheckView {
                name,
                pass: false,
                detail: "non-monotonic at frame "@ + decimal(i) + ": "@ + seconds6(pts[i] as int)
                    + "s follows "@ + seconds6(pts[i - 1] as int) + "s"@,
            },
            None => CheckView {
                name,
                pass: true,
                detail: decimal(pts.len() as int) + " frames strictly increasing"@,
            },
        }
    }
}

/// Whether each frame of a track comes after the one before. A track has frames.
pub fn check_monotonic(label: &str, pts: &[i64]) -> (c: Check)
    requires
        in_reach(pts@),
    ensures
        c@ == order_outcome(label@, pts@),
{
    let mut name: String = String::from_str("monotonic PTS [");
    name.append(label);
    name.append("] (§0)");
    let n: usize = pts.len();
    if n == 0 {
        return Check::fail(name, String::from_str("no frames extracted"));
    }
    let mut i: usize = 1;
    while i < n
        invariant
            1 <= i <= n,
            n == pts@.len(),
            in_reach(pts@),
            name@ == order_name(label@),
            first_back(pts@, 1) == first_back(pts@, i as int),
        decreases n - i,
    {
        if pts[i] <= pts[i - 1] {
            let mut d: String = String::from_str("non-monotonic at frame ");
            push_decimal(&mut d, i as u64);
            d.append(": ");
            push_seconds6(&mut d, pts[i]);
            d.append("s follows ");
            push_seconds6(&mut d, pts[i - 1]);
            d.append("s");
            return Check::fail(name, d);
        }
        i = i + 1;
    }
    let mut d: String = String::new();
    push_decimal(&mut d, n as u64);
    assert(d@ =~= decimal(pts@.len() as int));
    d.append(" frames strictly increasing");
    Check::pass(name, d)
}

/// Law: a track passes the check of its order exactly where it has frames and each comes after all
/// before it.
pub proof fn lemma_order_means_increasing(label: Seq<char>, pts: Seq<i64>)
    ensures
        order_outcome(label, pts).pass <==> pts.len() > 0 && forall|i: int, j: int|
            0 <= i < j < pts.len() ==> pts[i] < pts[j],
{
    if pts.len() > 0 {
        lemma_no_step_back(pts, 1);
        if first_back(pts, 1) is None {
            assert forall|i: int, j: int| 0 <= i < j < pts.len() implies pts[i] < pts[j] by {
                lemma_steps_add_up(pts, i, j);
            }
        } else {
            let k = first_back(pts, 1)->0;
            assert(pts[k] <= pts[k - 1]);
        }
    }
}

/// Where there is no step back, each frame comes after the one before; where there is one, it is a
/// frame's.
proof fn lemma_no_step_back(pts: Seq<i64>, i: int)
    requires
        1 <= i,
    ensures
        first_back(pts, i) is None ==> forall|k: int|
            i <= k < pts.len() ==> #[trigger] pts[k] > pts[k - 1],
        first_back(pts, i) matches Some(k) ==> i <= k < pts.len() && pts[k] <= pts[k - 1],
    decreases pts.len() - i,
{
    if i < pts.len() && pts[i] > pts[i - 1] {
        lemma_no_step_back(pts, i + 1);
    }
}

/// Steps forward add up.
proof fn lemma_steps_add_up(pts: Seq<i64>, i: int, j: int)
    requires
        0 <= i < j < pts.len(),
        forall|k: int| 1 <= k < pts.len() ==> #[trigger] pts[k] > pts[k - 1],
    ensures
        pts[i] < pts[j],
    decreases j - i,
{
    assert(pts[j] > pts[j - 1]);
    if i + 1 < j {
        lemma_steps_add_up(pts, i, j - 1);
    }
}

/// The times from each frame to the next.
pub open spec fn deltas(pts: Seq<i64>) -> Seq<int>
    decreases pts.len(),
{
    if pts.len() < 2 {
        Seq::empty()
    } else {
        deltas(pts.drop_last()).push(pts.last() - pts[pts.len() - 2])
    }
}

/// The times from frame to frame are one less than the frames, and none is too long.
proof fn lemma_deltas(pts: Seq<i64>)
    requires
        in_reach(pts),
    ensures
        deltas(pts).len() == if pts.len() == 0 {
            0
        } else {
            pts.len() - 1
        },
        forall|i: int|
            0 <= i < deltas(pts).len() ==> -2 * LIMIT <= #[trigger] deltas(pts)[i] <= 2 * LIMIT,
    decreases pts.len(),
{
    if pts.len() >= 2 {
        assert(in_reach(pts.drop_last()));
        lemma_deltas(pts.drop_last());
    }
}

/// The least of some numbers.
pub open spec fn least(s: Seq<int>) -> int
    decreases s.len(),
{
    if s.len() <= 1 {
        s[0]
    } else if s.last() < least(s.drop_last()) {
        s.last()
    } else {
        least(s.drop_last())
    }
}

/// The greatest of some numbers.
pub open spec fn greatest(s: Seq<int>) -> int
    decreases s.len(),
{
    if s.len() <= 1 {
        s[0]
    } else if s.last() > greatest(s.drop_last()) {
        s.last()
    } else {
        greatest(s.drop_last())
    }
}

/// How far each of some times is off, in parts of the fraction's lower number.
pub open spec fn misses(s: Seq<int>, delta: Delta) -> Seq<int> {
    s.map_values(|d: int| size(d * delta.den - delta.num))
}

/// A fraction of microseconds as seconds with six decimals.
pub open spec fn fraction6(delta: Delta) -> Seq<char> {
    if delta.den == 0 {
        "inf"@
    } else {
        (if delta.num < 0 {
            "-"@
        } else {
            ""@
        }) + seconds6(nearest(size(delta.num as int), delta.den as int))
    }
}

/// A fraction of thousandths with three decimals.
pub open spec fn fraction3(num: int, den: int) -> Seq<char> {
    (if num < 0 {
        "-"@
    } else {
        ""@
    }) + if den == 0 {
        "inf"@
    } else {
        millis3(nearest(size(num), den))
    }
}

/// The whole number nearest to a fraction that is not below zero.
fn round(p: u128, q: u128) -> (n: i64)
    requires
        q > 0,
        p <= q * 0x7000_0000_0000_0000,
        p <= u128::MAX / 4,
        q <= u128::MAX / 4,
    ensures
        n == nearest(p as int, q as int),
        0 <= n <= 0x7000_0000_0000_0000,
{
    let below: u128 = p / q;
    let over: u128 = 2 * (p % q);
    assert(below <= 0x7000_0000_0000_0000) by (nonlinear_arith)
        requires
            below == p / q,
            p <= q * 0x7000_0000_0000_0000,
            q > 0,
    ;
    assert(below == 0x7000_0000_0000_0000 ==> over == 0) by (nonlinear_arith)
        requires
            below == p / q,
            over == 2 * (p % q),
            p <= q * 0x7000_0000_0000_0000,
            q > 0,
    ;
    if over < q || (over == q && below % 2 == 0) {
        below as i64
    } else {
        (below + 1) as i64
    }
}

/// The size of a number.
fn size_of_i128(n: i128) -> (s: u128)
    requires
        n > i128::MIN,
    ensures
        s == size(n as int),
{
    if n < 0 {
        (-n) as u128
    } else {
        n as u128
    }
}

/// Append a fraction of microseconds as seconds with six decimals.
fn push_fraction6(s: &mut String, delta: Delta)
    requires
        delta.wf(),
    ensures
        final(s)@ == old(s)@ + fraction6(delta),
{
    if delta.den == 0 {
        s.append("inf");
        return ;
    }
    let mut word: String = String::from_str(
        if delta.num < 0 {
            "-"
        } else {
            ""
        },
    );
    let p: u128 = size_of_i128(delta.num as i128);
    let q: u128 = delta.den as u128;
    assert(p <= q * 0x7000_0000_0000_0000) by (nonlinear_arith)
        requires
            p <= 2 * 1_000_000_000_001_000_000,
            q >= 1,
    ;
    push_seconds6(&mut word, round(p, q));
    s.append(word.as_str());
}

/// Append a fraction of thousandths with three decimals.
fn push_fraction3(s: &mut String, num: i128, den: u128)
    requires
        -0x7000_0000_0000_0000 * den <= num <= 0x7000_0000_0000_0000 * den || den == 0,
        den <= 0x1_0000_0000_0000,
        num > i128::MIN,
    ensures
        final(s)@ == old(s)@ + fraction3(num as int, den as int),
{
    let mut word: String = String::from_str(
        if num < 0 {
            "-"
        } else {
            ""
        },
    );
    if den == 0 {
        word.append("inf");
    } else {
        let p: u128 = size_of_i128(num);
        assert(p <= 0x7000_0000_0000_0000 * 0x1_0000_0000_0000) by (nonlinear_arith)
            requires
                p <= 0x7000_0000_0000_0000 * den,
                den <= 0x1_0000_0000_0000,
        ;
        push_millis3(&mut word, round(p, den));
    }
    s.append(word.as_str());
}

/// The name of the check of the picture's spacing.
pub const CFR: &'static str = "video CFR (constant 1/fps deltas, §1.3/§4.5)";

/// The outcome of the check of the picture's spacing.
pub open spec fn cfr_outcome(pts: Seq<i64>, delta: Delta) -> CheckView {
    let steps = deltas(pts);
    let worst = greatest(misses(steps, delta));
    if pts.len() < 2 {
        CheckView {
            name: CFR@,
            pass: false,
            detail: "too few video frames ("@ + decimal(pts.len() as int) + ") to check CFR"@,
        }
    } else if worst > CFR_TOL * delta.den {
        CheckView {
            name: CFR@,
            pass: false,
            detail: "delta spread ["@ + seconds6(least(steps)) + ", "@ + seconds6(greatest(steps))
                + "]s vs expected "@ + fraction6(delta) + "s — worst deviation "@ + fraction3(
                worst,
                delta.den as int,
            ) + " ms > 1 ms tol"@,
        }
    } else {
        CheckView {
            name: CFR@,
            pass: true,
            detail: decimal(pts.len() - 1) + " deltas, all within "@ + fraction3(
                worst,
                delta.den as int,
            ) + " ms of "@ + fraction6(delta) + "s (1/fps)"@,
        }
    }
}

/// One time more.
proof fn lemma_one_more(pts: Seq<i64>, delta: Delta, i: int)
    requires
        1 <= i < pts.len(),
    ensures
        deltas(pts.take(i + 1)) == deltas(pts.take(i)).push(pts[i] - pts[i - 1]),
        misses(deltas(pts.take(i + 1)), delta) == misses(deltas(pts.take(i)), delta).push(
            size((pts[i] - pts[i - 1]) * delta.den - delta.num),
        ),
{
    assert(pts.take(i + 1).drop_last() =~= pts.take(i));
    assert(misses(deltas(pts.take(i + 1)), delta) =~= misses(deltas(pts.take(i)), delta).push(
        size((pts[i] - pts[i - 1]) * delta.den - delta.num),
    ));
}

/// How far a time can be off.
proof fn lemma_miss_is_small(d: int, delta: Delta)
    requires
        delta.wf(),
        -2 * LIMIT <= d <= 2 * LIMIT,
    ensures
        size(d * delta.den - delta.num) <= 2 * LIMIT * 0x1_0000_0000 + 2 * LIMIT,
        delta.den > 0 ==> size(d * delta.den - delta.num) <= 4 * LIMIT * delta.den,
        -2 * LIMIT * 0x1_0000_0000 <= d * delta.den <= 2 * LIMIT * 0x1_0000_0000,
{
    let q = delta.den as int;
    assert(-2 * LIMIT * q <= d * q <= 2 * LIMIT * q) by (nonlinear_arith)
        requires
            -2 * LIMIT <= d <= 2 * LIMIT,
            q >= 0,
    ;
    assert(2 * LIMIT * q <= 2 * LIMIT * 0x1_0000_0000) by (nonlinear_arith)
        requires
            0 <= q <= 0x1_0000_0000,
            LIMIT > 0,
    ;
    assert(-2 * LIMIT * q == -(2 * LIMIT * q)) by (nonlinear_arith);
    assert(4 * LIMIT * q == 2 * (2 * LIMIT * q)) by (nonlinear_arith);
    if q > 0 {
        assert(2 * LIMIT <= 2 * LIMIT * q) by (nonlinear_arith)
            requires
                q >= 1,
                LIMIT > 0,
        ;
    }
}

/// The least and the greatest time between frames, and how far the worst is off.
fn measure_steps(pts: &[i64], delta: Delta) -> (r: (i64, i64, i128))
    requires
        in_reach(pts@),
        delta.wf(),
        pts@.len() >= 2,
    ensures
        r.0 == least(deltas(pts@)),
        r.1 == greatest(deltas(pts@)),
        r.2 == greatest(misses(deltas(pts@), delta)),
        -2 * LIMIT <= r.0 <= 2 * LIMIT,
        -2 * LIMIT <= r.1 <= 2 * LIMIT,
        0 <= r.2 <= 2 * LIMIT * 0x1_0000_0000 + 2 * LIMIT,
        delta.den > 0 ==> r.2 <= 4 * LIMIT * delta.den,
{
    let n: usize = pts.len();
    let q: i128 = delta.den as i128;
    let mut low: i64 = pts[1] - pts[0];
    let mut high: i64 = low;
    proof {
        lemma_one_more(pts@, delta, 1);
        lemma_miss_is_small(low as int, delta);
        assert(deltas(pts@.take(1)) =~= Seq::empty());
        assert(misses(deltas(pts@.take(1)), delta) =~= Seq::empty());
    }
    assert(low * q == (pts@[1] - pts@[0]) * delta.den);
    let first: i128 = low as i128 * q - delta.num as i128;
    let mut worst: i128 = if first < 0 {
        -first
    } else {
        first
    };
    let mut i: usize = 2;
    while i < n
        invariant
            2 <= i <= n,
            n == pts@.len(),
            in_reach(pts@),
            delta.wf(),
            q == delta.den,
            low == least(deltas(pts@.take(i as int))),
            high == greatest(deltas(pts@.take(i as int))),
            worst == greatest(misses(deltas(pts@.take(i as int)), delta)),
            -2 * LIMIT <= low <= 2 * LIMIT,
            -2 * LIMIT <= high <= 2 * LIMIT,
            0 <= worst <= 2 * LIMIT * 0x1_0000_0000 + 2 * LIMIT,
            delta.den > 0 ==> worst <= 4 * LIMIT * delta.den,
            deltas(pts@.take(i as int)).len() >= 1,
        decreases n - i,
    {
        let d: i64 = pts[i as usize] - pts[i - 1];
        let ghost before = deltas(pts@.take(i as int));
        proof {
            lemma_one_more(pts@, delta, i as int);
            lemma_miss_is_small(d as int, delta);
            let steps = before.push(d as int);
            assert(steps.drop_last() =~= before);
            let off = misses(before, delta).push(size(d * delta.den - delta.num));
            assert(off.drop_last() =~= misses(before, delta));
        }
        assert(d * q == (pts@[i as int] - pts@[i - 1]) * delta.den);
        let miss: i128 = d as i128 * q - delta.num as i128;
        let off: i128 = if miss < 0 {
            -miss
        } else {
            miss
        };
        if d < low {
            low = d;
        }
        if d > high {
            high = d;
        }
        if off > worst {
            worst = off;
        }
        i = i + 1;
    }
    assert(pts@.take(n as int) =~= pts@);
    (low, high, worst)
}

/// Whether the picture's frames come as evenly as they should.
pub fn check_cfr(pts: &[i64], delta: Delta) -> (c: Check)
    requires
        in_reach(pts@),
        delta.wf(),
    ensures
        c@ == cfr_outcome(pts@, delta),
{
    let name: String = String::from_str(CFR);
    let n: usize = pts.len();
    if n < 2 {
        let mut d: String = String::from_str("too few video frames (");
        push_decimal(&mut d, n as u64);
        d.append(") to check CFR");
        return Check::fail(name, d);
    }
    let (low, high, worst): (i64, i64, i128) = measure_steps(pts, delta);
    let den: u128 = delta.den as u128;
    proof {
        if delta.den > 0 {
            assert(worst <= 0x7000_0000_0000_0000 * den) by (nonlinear_arith)
                requires
                    worst <= 4 * 1_000_000_000_001_000_000 * den,
                    den > 0,
            ;
        }
        assert(-0x7000_0000_0000_0000 * den <= 0) by (nonlinear_arith)
            requires
                den >= 0,
        ;
    }
    if worst > CFR_TOL as i128 * delta.den as i128 {
        let mut d: String = String::from_str("delta spread [");
        push_seconds6(&mut d, low);
        d.append(", ");
        push_seconds6(&mut d, high);
        d.append("]s vs expected ");
        push_fraction6(&mut d, delta);
        d.append("s — worst deviation ");
        push_fraction3(&mut d, worst, den);
        d.append(" ms > 1 ms tol");
        return Check::fail(name, d);
    }
    let mut d: String = String::new();
    push_decimal(&mut d, (n - 1) as u64);
    assert(d@ =~= decimal(pts@.len() - 1));
    d.append(" deltas, all within ");
    push_fraction3(&mut d, worst, den);
    d.append(" ms of ");
    push_fraction6(&mut d, delta);
    d.append("s (1/fps)");
    Check::pass(name, d)
}

/// The middle of the times between frames, in order: zero where there is none.
pub open spec fn median(pts: Seq<i64>) -> int {
    if pts.len() < 2 {
        0
    } else {
        deltas(pts).sort()[(pts.len() - 1) / 2]
    }
}

/// Where a number belongs among numbers in order.
fn place_in(v: &Vec<i64>, x: i64) -> (k: usize)
    requires
        sorted_by(ints(v@), |a: int, b: int| a <= b),
    ensures
        k <= v@.len(),
        forall|i: int| 0 <= i < k ==> #[trigger] v@[i] <= x,
        forall|i: int| k <= i < v@.len() ==> x <= #[trigger] v@[i],
{
    let mut low: usize = 0;
    let mut high: usize = v.len();
    while low < high
        invariant
            low <= high <= v@.len(),
            sorted_by(ints(v@), |a: int, b: int| a <= b),
            forall|i: int| 0 <= i < low ==> #[trigger] v@[i] <= x,
            forall|i: int| high <= i < v@.len() ==> x <= #[trigger] v@[i],
        decreases high - low,
    {
        let mid: usize = low + (high - low) / 2;
        let ghost leq = |a: int, b: int| a <= b;
        assert forall|i: int| 0 <= i < v@.len() implies (i < mid ==> #[trigger] v@[i] <= v@[
            mid as int
        ]) && (mid < i ==> v@[mid as int] <= v@[i]) by {
            let s = ints(v@);
            assert(s[i] == v@[i] && s[mid as int] == v@[mid as int]);
            if i < mid {
                assert(leq(s[i], s[mid as int]));
            } else if mid < i {
                assert(leq(s[mid as int], s[i]));
            }
        }
        if v[mid] <= x {
            low = mid + 1;
        } else {
            high = mid;
        }
    }
    low
}

/// The middle of the times between frames: what stands in where the frame rate is not known.
pub fn median_delta(pts: &[i64]) -> (d: i64)
    requires
        in_reach(pts@),
    ensures
        d == median(pts@),
        -2 * LIMIT <= d <= 2 * LIMIT,
{
    let n: usize = pts.len();
    if n < 2 {
        return 0;
    }
    let ghost leq = |a: int, b: int| a <= b;
    let mut v: Vec<i64> = Vec::new();
    let mut i: usize = 1;
    assert(deltas(pts@.take(1)) =~= Seq::empty());
    assert(ints(v@) =~= Seq::empty());
    while i < n
        invariant
            1 <= i <= n,
            n == pts@.len(),
            in_reach(pts@),
            leq == (|a: int, b: int| a <= b),
            v@.len() == i - 1,
            sorted_by(ints(v@), leq),
            ints(v@).to_multiset() == deltas(pts@.take(i as int)).to_multiset(),
            forall|k: int| 0 <= k < v@.len() ==> -2 * LIMIT <= #[trigger] v@[k] <= 2 * LIMIT,
        decreases n - i,
    {
        let d: i64 = pts[i] - pts[i - 1];
        let ghost before = v@;
        let k: usize = place_in(&v, d);
        v.insert(k, d);
        proof {
            lemma_one_more(pts@, Delta { num: 0, den: 1 }, i as int);
            lemma_put_in_place(before, k as int, d);
            to_multiset_build(deltas(pts@.take(i as int)), d as int);
        }
        i = i + 1;
    }
    proof {
        assert(pts@.take(n as int) =~= pts@);
        lemma_in_order(v@, deltas(pts@));
        assert(ints(v@)[(n - 1) / 2] == v@[(n - 1) / 2]);
    }
    v[(n - 1) / 2]
}

/// Numbers in order stay so where one more is put in its place.
proof fn lemma_put_in_place(v: Seq<i64>, k: int, d: i64)
    requires
        0 <= k <= v.len(),
        sorted_by(ints(v), |a: int, b: int| a <= b),
        forall|i: int| 0 <= i < k ==> #[trigger] v[i] <= d,
        forall|i: int| k <= i < v.len() ==> d <= #[trigger] v[i],
    ensures
        sorted_by(ints(v.insert(k, d)), |a: int, b: int| a <= b),
        ints(v.insert(k, d)).to_multiset() == ints(v).to_multiset().insert(d as int),
{
    let leq = |a: int, b: int| a <= b;
    let after = ints(v.insert(k, d));
    assert(after =~= ints(v).insert(k, d as int));
    to_multiset_insert(ints(v), k, d as int);
    assert forall|a: int, b: int| 0 <= a < b < after.len() implies #[trigger] leq(
        after[a],
        after[b],
    ) by {
        let old_a = if a < k {
            a
        } else {
            a - 1
        };
        let old_b = if b < k {
            b
        } else {
            b - 1
        };
        if a != k && b != k {
            assert(leq(ints(v)[old_a], ints(v)[old_b]));
        } else if a == k {
            assert(v[old_b] >= d);
        } else {
            assert(v[old_a] <= d);
        }
    }
}

/// Numbers in order are those that sorting gives.
proof fn lemma_in_order(v: Seq<i64>, s: Seq<int>)
    requires
        sorted_by(ints(v), |a: int, b: int| a <= b),
        ints(v).to_multiset() == s.to_multiset(),
    ensures
        ints(v) == s.sort(),
{
    let leq = |a: int, b: int| a <= b;
    s.lemma_sort_ensures();
    assert(total_ordering(leq));
    lemma_sorted_unique(ints(v), s.sort(), leq);
}

/// The time from one frame to the next: from the frame rate, or else the middle one.
pub open spec fn expected(rate: Option<FrameRate>, pts: Seq<i64>) -> Delta {
    match rate {
        Some(rate) => Delta { num: (1_000_000 * rate.den) as i64, den: rate.num },
        None => Delta { num: median(pts) as i64, den: 1 },
    }
}

/// The time from one frame to the next.
pub fn expected_delta(rate: Option<FrameRate>, pts: &[i64]) -> (delta: Delta)
    requires
        in_reach(pts@),
        rate matches Some(r) ==> r.den > 0,
    ensures
        delta == expected(rate, pts@),
        delta.wf(),
{
    match rate {
        Some(rate) => Delta { num: 1_000_000 * rate.den as i64, den: rate.num },
        None => Delta { num: median_delta(pts), den: 1 },
    }
}

/// A time of a track.
#[derive(Debug, Clone, PartialEq, Eq)]
pub struct TrackTime {
    pub label: String,
    pub time: i64,
}

/// The times of tracks, with their names.
pub open spec fn named_times(v: Seq<TrackTime>) -> Seq<(Seq<char>, int)> {
    v.map_values(|t: TrackTime| (t.label@, t.time as int))
}

/// Whether times can be taken.
pub open spec fn times_in_reach(times: Seq<TrackTime>) -> bool {
    forall|i: int| 0 <= i < times.len() ==> -LIMIT <= (#[trigger] times[i]).time <= LIMIT
}

/// How far a track ends behind the picture, in parts of three times the fraction's lower number. A
/// track ends an AAC frame after its last time, the picture a frame after its own.
pub open spec fn lead(audio: int, video: int, delta: Delta) -> int {
    (audio - video) * (3 * delta.den) + AAC_FRAMES_3 * delta.den - 3 * delta.num
}

/// The first track, from `i` on, that ends more than an AAC frame away from the picture.
pub open spec fn first_skewed(
    last: int,
    delta: Delta,
    audio: Seq<(Seq<char>, int)>,
    i: int,
) -> Option<int>
    decreases audio.len() - i,
{
    if i < 0 || i >= audio.len() {
        None
    } else if size(lead(audio[i].1, last, delta)) > AAC_FRAMES_3 * delta.den {
        Some(i)
    } else {
        first_skewed(last, delta, audio, i + 1)
    }
}

/// The name of the check of the tracks' ends.
pub const ENDS: &'static str = "track end alignment (within 1 AAC frame, §4.4/§5 AV-3)";

/// The outcome of the check of the tracks' ends.
pub open spec fn ends_outcome(
    last: int,
    delta: Delta,
    audio: Seq<(Seq<char>, int)>,
) -> CheckView {
    match first_skewed(last, delta, audio, 0) {
        Some(i) => CheckView {
            name: ENDS@,
            pass: false,
            detail: "audio ["@ + audio[i].0 + "] ends "@ + fraction3(
                lead(audio[i].1, last, delta),
                3 * delta.den as int,
            ) + " ms from video (> "@ + AAC_FRAME_TEXT@ + " ms = 1 AAC frame)"@,
        },
        None => CheckView {
            name: ENDS@,
            pass: true,
            detail: "video end "@ + fraction3(last * delta.den + delta.num, 1000 * delta.den as int)
                + "s; "@ + decimal(audio.len() as int) + " audio track(s) within "@
                + AAC_FRAME_TEXT@ + " ms"@,
        },
    }
}

/// How far a track can end from the picture.
proof fn lemma_lead_is_small(audio: int, video: int, delta: Delta)
    requires
        delta.wf(),
        -LIMIT <= audio <= LIMIT,
        -LIMIT <= video <= LIMIT,
    ensures
        -2 * LIMIT * 0x3_0000_0000 <= (audio - video) * (3 * delta.den) <= 2 * LIMIT
            * 0x3_0000_0000,
        delta.den > 0 ==> size(lead(audio, video, delta)) <= 5 * LIMIT * (3 * delta.den),
        -LIMIT * 0x1_0000_0000 <= video * delta.den <= LIMIT * 0x1_0000_0000,
        delta.den > 0 ==> size(video * delta.den + delta.num) <= 3 * LIMIT * (1000 * delta.den),
{
    let q = delta.den as int;
    let gap = audio - video;
    assert(-2 * LIMIT * (3 * q) <= gap * (3 * q) <= 2 * LIMIT * (3 * q)) by (nonlinear_arith)
        requires
            -2 * LIMIT <= gap <= 2 * LIMIT,
            q >= 0,
    ;
    assert(2 * LIMIT * (3 * q) <= 2 * LIMIT * 0x3_0000_0000) by (nonlinear_arith)
        requires
            0 <= q <= 0x1_0000_0000,
            LIMIT > 0,
    ;
    assert(-2 * LIMIT * (3 * q) == -(2 * LIMIT * (3 * q))) by (nonlinear_arith);
    assert(-LIMIT * q == -(LIMIT * q)) by (nonlinear_arith);
    assert(-LIMIT * q <= video * q <= LIMIT * q) by (nonlinear_arith)
        requires
            -LIMIT <= video <= LIMIT,
            q >= 0,
    ;
    assert(LIMIT * q <= LIMIT * 0x1_0000_0000) by (nonlinear_arith)
        requires
            0 <= q <= 0x1_0000_0000,
            LIMIT > 0,
    ;
    if q > 0 {
        assert(6 * LIMIT <= 2 * LIMIT * (3 * q)) by (nonlinear_arith)
            requires
                q >= 1,
                LIMIT > 0,
        ;
        assert(AAC_FRAMES_3 * q <= LIMIT * (3 * q)) by (nonlinear_arith)
            requires
                q >= 1,
                AAC_FRAMES_3 == 64_000,
                LIMIT >= 64_000,
        ;
        assert(size(lead(audio, video, delta)) <= 5 * LIMIT * (3 * q)) by (nonlinear_arith)
            requires
                -2 * LIMIT * (3 * q) <= gap * (3 * q) <= 2 * LIMIT * (3 * q),
                6 * LIMIT <= 2 * LIMIT * (3 * q),
                0 <= AAC_FRAMES_3 * q <= LIMIT * (3 * q),
                size(lead(audio, video, delta)) <= size(gap * (3 * q)) + AAC_FRAMES_3 * q + 6
                    * LIMIT,
        ;
        assert(LIMIT * q + 2 * LIMIT <= 3 * LIMIT * (1000 * q)) by (nonlinear_arith)
            requires
                q >= 1,
                LIMIT > 0,
        ;
    }
}

/// Whether every track ends within an AAC frame of the picture, whose last frame comes at `last`.
pub fn check_end_alignment(last: i64, delta: Delta, audio: &[TrackTime]) -> (c: Check)
    requires
        -LIMIT <= last <= LIMIT,
        delta.wf(),
        times_in_reach(audio@),
    ensures
        c@ == ends_outcome(last as int, delta, named_times(audio@)),
{
    let name: String = String::from_str(ENDS);
    let n: usize = audio.len();
    let den: u128 = delta.den as u128;
    let mut i: usize = 0;
    while i < n
        invariant
            i <= n,
            n == audio@.len(),
            name@ == ENDS@,
            den == delta.den,
            -LIMIT <= last <= LIMIT,
            delta.wf(),
            times_in_reach(audio@),
            first_skewed(last as int, delta, named_times(audio@), 0) == first_skewed(
                last as int,
                delta,
                named_times(audio@),
                i as int,
            ),
        decreases n - i,
    {
        proof {
            lemma_lead_is_small(audio@[i as int].time as int, last as int, delta);
        }
        let gap: i128 = (audio[i].time as i128 - last as i128) * (3 * delta.den as i128);
        let off: i128 = gap + AAC_FRAMES_3 as i128 * delta.den as i128 - 3 * delta.num as i128;
        assert(off == lead(audio@[i as int].time as int, last as int, delta));
        if size_of_i128(off) > AAC_FRAMES_3 as u128 * den {
            let mut d: String = String::from_str("audio [");
            d.append(audio[i].label.as_str());
            d.append("] ends ");
            proof {
                if delta.den > 0 {
                    assert(5 * LIMIT * (3 * den) <= 0x7000_0000_0000_0000 * (3 * den))
                        by (nonlinear_arith)
                        requires
                            den > 0,
                            LIMIT == 1_000_000_000_001_000_000,
                    ;
                }
            }
            push_fraction3(&mut d, off, 3 * den);
            d.append(" ms from video (> ");
            d.append(AAC_FRAME_TEXT);
            d.append(" ms = 1 AAC frame)");
            return Check::fail(name, d);
        }
        i = i + 1;
    }
    proof {
        lemma_lead_is_small(0, last as int, delta);
        if delta.den > 0 {
            assert(3 * LIMIT * (1000 * den) <= 0x7000_0000_0000_0000 * (1000 * den))
                by (nonlinear_arith)
                requires
                    den > 0,
                    LIMIT == 1_000_000_000_001_000_000,
            ;
        }
    }
    let end: i128 = last as i128 * delta.den as i128 + delta.num as i128;
    let mut d: String = String::from_str("video end ");
    push_fraction3(&mut d, end, 1000 * den);
    d.append("s; ");
    push_decimal(&mut d, n as u64);
    d.append(" audio track(s) within ");
    d.append(AAC_FRAME_TEXT);
    d.append(" ms");
    Check::pass(name, d)
}

/// The first track, from `i` on, that begins before zero or more than an AAC frame after it.
pub open spec fn first_late(audio: Seq<(Seq<char>, int)>, i: int) -> Option<int>
    decreases audio.len() - i,
{
    if i < 0 || i >= audio.len() {
        None
    } else if audio[i].1 < 0 || 3 * audio[i].1 > AAC_FRAMES_3 {
        Some(i)
    } else {
        first_late(audio, i + 1)
    }
}

/// The name of the check of the clip's beginning.
pub const ORIGIN: &'static str = "save rebase origin (video@0, audio head ≤ 1 AAC frame, §4.3/§4.4)";

/// The outcome of the check of the clip's beginning.
pub open spec fn origin_outcome(first: int, audio: Seq<(Seq<char>, int)>) -> CheckView {
    if size(first) > ORIGIN_TOL {
        CheckView {
            name: ORIGIN@,
            pass: false,
            detail: "first video PTS is "@ + millis3(first) + " ms, expected 0 (§4.3)"@,
        }
    } else {
        match first_late(audio, 0) {
            Some(i) => CheckView {
                name: ORIGIN@,
                pass: false,
                detail: "audio ["@ + audio[i].0 + "] head-silence "@ + millis3(audio[i].1)
                    + " ms outside [0, "@ + AAC_FRAME_TEXT@ + " ms] (§4.4)"@,
            },
            None => CheckView {
                name: ORIGIN@,
                pass: true,
                detail: "video@"@ + millis3(first) + " ms; audio head(s) ≤ "@ + AAC_FRAME_TEXT@
                    + " ms"@,
            },
        }
    }
}

/// Whether the picture begins at zero, and every track at most an AAC frame after it.
pub fn check_rebase_origin(first: i64, audio: &[TrackTime]) -> (c: Check)
    requires
        -LIMIT <= first <= LIMIT,
        times_in_reach(audio@),
    ensures
        c@ == origin_outcome(first as int, named_times(audio@)),
{
    let name: String = String::from_str(ORIGIN);
    if first > ORIGIN_TOL || first < -ORIGIN_TOL {
        let mut d: String = String::from_str("first video PTS is ");
        push_millis3(&mut d, first);
        d.append(" ms, expected 0 (§4.3)");
        return Check::fail(name, d);
    }
    let n: usize = audio.len();
    let mut i: usize = 0;
    while i < n
        invariant
            i <= n,
            n == audio@.len(),
            name@ == ORIGIN@,
            size(first as int) <= ORIGIN_TOL,
            times_in_reach(audio@),
            first_late(named_times(audio@), 0) == first_late(named_times(audio@), i as int),
        decreases n - i,
    {
        if audio[i].time < 0 || 3 * audio[i].time > AAC_FRAMES_3 {
            let mut d: String = String::from_str("audio [");
            d.append(audio[i].label.as_str());
            d.append("] head-silence ");
            push_millis3(&mut d, audio[i].time);
            d.append(" ms outside [0, ");
            d.append(AAC_FRAME_TEXT);
            d.append(" ms] (§4.4)");
            return Check::fail(name, d);
        }
        i = i + 1;
    }
    let mut d: String = String::from_str("video@");
    push_millis3(&mut d, first);
    d.append(" ms; audio head(s) ≤ ");
    d.append(AAC_FRAME_TEXT);
    d.append(" ms");
    Check::pass(name, d)
}

} // verus!
