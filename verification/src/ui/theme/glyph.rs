//! What the glyph looks like.

use vstd::prelude::*;

use crate::ui::theme::{
    alpha_sum, block_index, color_sum, in_chip, in_track, middle, overshoot, pixel, pixels,
    sample_color, samples, CARVED, PLAYHEAD,
};

verus! {

/// Law: the chip looks the same in a mirror, upside down, and with its sides exchanged.
pub proof fn lemma_chip_is_symmetric(n: int, x: int, y: int)
    requires
        0 <= n,
    ensures
        in_chip(n, n - 1 - x, y) == in_chip(n, x, y),
        in_chip(n, x, n - 1 - y) == in_chip(n, x, y),
        in_chip(n, y, x) == in_chip(n, x, y),
{
    let r = n * 1_848;
    let (low, high) = (n * 800 + r, n * 9_200 - r);
    assert(middle(n - 1 - x) == n * 10_000 - middle(x));
    assert(middle(n - 1 - y) == n * 10_000 - middle(y));
    assert(overshoot(middle(n - 1 - x), low, high) == overshoot(middle(x), low, high));
    assert(overshoot(middle(n - 1 - y), low, high) == overshoot(middle(y), low, high));
}

/// Law: the middle of the glyph is in its chip, and its corners are not; outside of the chip there is
/// nothing to see.
pub proof fn lemma_chip_fills_the_middle(chip: [u8; 4], n: int, x: int, y: int)
    requires
        7 <= n,
    ensures
        n * 2_648 <= middle(x) <= n * 7_352 && n * 800 <= middle(y) <= n * 9_200 ==> in_chip(n, x, y),
        !in_chip(n, 0, 0),
        !in_chip(n, x, y) ==> sample_color(chip, n, x, y)@ == seq![0u8, 0u8, 0u8, 0u8],
        in_chip(n, x, y) && !in_track(n, x, y) ==> sample_color(chip, n, x, y) == chip,
        in_chip(n, x, y) && in_track(n, x, y) && 10_000 * x + 5_000 > n * 5_720 + 36_000
            ==> sample_color(chip, n, x, y) == chip,
        in_chip(n, x, y) && in_track(n, x, y) && 10_000 * x + 5_000 < n * 5_720 - 36_000
            ==> sample_color(chip, n, x, y) == CARVED,
        in_chip(n, x, y) && in_track(n, x, y) && -36_000 <= 10_000 * x + 5_000 - n * 5_720 <= 36_000
            ==> sample_color(chip, n, x, y) == PLAYHEAD,
{
    let r = n * 1_848;
    let (low, high) = (n * 800 + r, n * 9_200 - r);
    if n * 2_648 <= middle(x) <= n * 7_352 && n * 800 <= middle(y) <= n * 9_200 {
        let dx = overshoot(middle(x), low, high);
        let dy = overshoot(middle(y), low, high);
        assert(dx == 0 && 0 <= dy <= r);
        assert(dx * dx + dy * dy <= r * r) by (nonlinear_arith)
            requires
                dx == 0,
                0 <= dy <= r,
        ;
        assert(n * 2_648 <= n * 9_200);
    }
    if !in_chip(n, x, y) {
        let none = [0u8, 0u8, 0u8, 0u8];
        assert(none@ =~= seq![0u8, 0u8, 0u8, 0u8]);
    }
}

/// Law: samples stand row by row, four bytes each, and a sample only depends on its own place.
pub proof fn lemma_samples_stand_in_rows(chip: [u8; 4], n: int, k: int, x: int, y: int)
    requires
        0 <= x < n,
        0 <= y,
        y * n + x < k,
    ensures
        samples(chip, n, k).len() == 4 * k,
        samples(chip, n, k).subrange(4 * (y * n + x), 4 * (y * n + x) + 4) == sample_color(
            chip,
            n,
            x,
            y,
        )@,
{
    let p = y * n + x;
    assert(0 <= p) by (nonlinear_arith)
        requires
            p == y * n + x,
            0 <= x < n,
            0 <= y,
    ;
    vstd::arithmetic::div_mod::lemma_fundamental_div_mod_converse(p, n, y, x);
    lemma_sample_place(chip, n, k, p);
}

/// A sample stands where it belongs.
proof fn lemma_sample_place(chip: [u8; 4], n: int, k: int, p: int)
    requires
        0 <= p < k,
    ensures
        samples(chip, n, k).len() == 4 * k,
        samples(chip, n, k).subrange(4 * p, 4 * p + 4) == sample_color(chip, n, p % n, p / n)@,
    decreases k,
{
    let before = samples(chip, n, k - 1);
    let all = samples(chip, n, k);
    lemma_samples_len(chip, n, k - 1);
    if p < k - 1 {
        lemma_sample_place(chip, n, k - 1, p);
        assert(all.subrange(4 * p, 4 * p + 4) =~= before.subrange(4 * p, 4 * p + 4));
    } else {
        assert(all.subrange(4 * p, 4 * p + 4) =~= sample_color(chip, n, p % n, p / n)@);
    }
}

/// Each sample takes four bytes.
proof fn lemma_samples_len(chip: [u8; 4], n: int, k: int)
    requires
        0 <= k,
    ensures
        samples(chip, n, k).len() == 4 * k,
    decreases k,
{
    if k > 0 {
        lemma_samples_len(chip, n, k - 1);
    }
}

/// Law: pixels stand one after the other, four bytes each, and a pixel only depends on its own block.
pub proof fn lemma_pixels_stand_in_order(src: Seq<u8>, n: int, ss: int, size: int, k: int, p: int)
    requires
        0 <= p < k,
    ensures
        pixels(src, n, ss, size, k).len() == 4 * k,
        pixels(src, n, ss, size, k).subrange(4 * p, 4 * p + 4) == pixel(src, n, ss, size, p),
    decreases k,
{
    let before = pixels(src, n, ss, size, k - 1);
    let all = pixels(src, n, ss, size, k);
    lemma_pixels_len(src, n, ss, size, k - 1);
    if p < k - 1 {
        lemma_pixels_stand_in_order(src, n, ss, size, k - 1, p);
        assert(all.subrange(4 * p, 4 * p + 4) =~= before.subrange(4 * p, 4 * p + 4));
    } else {
        assert(all.subrange(4 * p, 4 * p + 4) =~= pixel(src, n, ss, size, p));
    }
}

/// Each pixel takes four bytes.
proof fn lemma_pixels_len(src: Seq<u8>, n: int, ss: int, size: int, k: int)
    requires
        0 <= k,
    ensures
        pixels(src, n, ss, size, k).len() == 4 * k,
    decreases k,
{
    if k > 0 {
        lemma_pixels_len(src, n, ss, size, k - 1);
    }
}

/// Whether every sample of a block is either of a colour or not to be seen.
pub open spec fn is_partly(
    src: Seq<u8>,
    n: int,
    ss: int,
    size: int,
    p: int,
    color: Seq<u8>,
) -> bool {
    forall|k: int|
        0 <= k < ss * ss ==> {
            let o = #[trigger] block_index(n, ss, size, p, k);
            src[o + 3] == 0 || (src[o] == color[0] && src[o + 1] == color[1] && src[o + 2]
                == color[2])
        }
}

/// The sum over a block of a colour is that of its alpha, times the colour.
proof fn lemma_partly_sums(
    src: Seq<u8>,
    n: int,
    ss: int,
    size: int,
    p: int,
    color: Seq<u8>,
    k: int,
    c: int,
)
    requires
        is_partly(src, n, ss, size, p, color),
        0 <= k <= ss * ss,
        0 <= c < 3,
    ensures
        0 <= alpha_sum(src, n, ss, size, p, k) <= 255 * k,
        color_sum(src, n, ss, size, p, k, c) == color[c] * alpha_sum(src, n, ss, size, p, k),
    decreases k,
{
    let v = color[c] as int;
    if k > 0 {
        lemma_partly_sums(src, n, ss, size, p, color, k - 1, c);
        let o = block_index(n, ss, size, p, k - 1);
        let a = src[o + 3] as int;
        let sum = alpha_sum(src, n, ss, size, p, k - 1);
        assert(src[o + c] * src[o + 3] == v * a) by {
            if a == 0 {
                assert(v * a == 0 && src[o + c] * a == 0) by (nonlinear_arith)
                    requires
                        a == 0,
                ;
            }
        }
        assert(v * (sum + a) == v * sum + v * a) by (nonlinear_arith);
    } else {
        assert(v * 0 == 0) by (nonlinear_arith);
    }
}

/// Law: what is not to be seen adds no colour. A pixel whose samples are of one colour, as far as they
/// can be seen, has that colour, and is as opaque as they are in the mean, rounded down.
pub proof fn lemma_unseen_adds_no_colour(
    src: Seq<u8>,
    n: int,
    ss: int,
    size: int,
    p: int,
    color: Seq<u8>,
)
    requires
        0 < ss,
        is_partly(src, n, ss, size, p, color),
        alpha_sum(src, n, ss, size, p, ss * ss) > 0,
    ensures
        pixel(src, n, ss, size, p).take(3) == color.take(3) || color.len() < 3,
        pixel(src, n, ss, size, p)[3] * (ss * ss) <= alpha_sum(src, n, ss, size, p, ss * ss) < (
        pixel(src, n, ss, size, p)[3] + 1) * (ss * ss),
{
    let area = ss * ss;
    assert(0 < area) by (nonlinear_arith)
        requires
            0 < ss,
            area == ss * ss,
    ;
    lemma_partly_sums(src, n, ss, size, p, color, area, 0);
    lemma_partly_sums(src, n, ss, size, p, color, area, 1);
    lemma_partly_sums(src, n, ss, size, p, color, area, 2);
    let alpha = alpha_sum(src, n, ss, size, p, area);
    vstd::arithmetic::div_mod::lemma_div_multiples_vanish(color[0] as int, alpha);
    vstd::arithmetic::div_mod::lemma_div_multiples_vanish(color[1] as int, alpha);
    vstd::arithmetic::div_mod::lemma_div_multiples_vanish(color[2] as int, alpha);
    assert(color[0] * alpha == alpha * color[0]) by (nonlinear_arith);
    assert(color[1] * alpha == alpha * color[1]) by (nonlinear_arith);
    assert(color[2] * alpha == alpha * color[2]) by (nonlinear_arith);
    vstd::arithmetic::div_mod::lemma_fundamental_div_mod(alpha, area);
    let q = alpha / area;
    assert(q <= 255 && 0 <= q) by (nonlinear_arith)
        requires
            area * q <= alpha,
            alpha < area * q + area,
            0 <= alpha <= 255 * area,
            0 < area,
    ;
    assert(q * area == area * q) by (nonlinear_arith);
    assert((q + 1) * area == q * area + area) by (nonlinear_arith);
    if color.len() >= 3 {
        assert(pixel(src, n, ss, size, p).take(3) =~= color.take(3));
    }
}

} // verus!
