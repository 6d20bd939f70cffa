//! The palette, and the glyph that the tray and the window show.
//!
//! The glyph is drawn four times as large and averaged down, so that its edges are smooth. Its
//! geometry is given in ten-thousandths of its edge, and a point's position in ten-thousandths of a
//! sample.

use vstd::prelude::*;

pub mod glyph;

verus! {

/// The accent: links, focus, progress, the healthy state.
pub const ACCENT: [u8; 4] = [0xA7, 0x8B, 0xFA, 0xFF];

/// The accent under the pointer.
pub const ACCENT_HOVER: [u8; 4] = [0xC4, 0xB5, 0xFD, 0xFF];

/// The background of what is selected, and of filled buttons.
pub const ACCENT_FILL: [u8; 4] = [0x5B, 0x4B, 0x9E, 0xFF];

/// All is well.
pub const GOOD: [u8; 4] = [0x7D, 0xFA, 0x8F, 0xFF];

/// Paused, or nearly clipping.
pub const AMBER: [u8; 4] = [0xFA, 0xD6, 0x7D, 0xFF];

/// A warning.
pub const WARN: [u8; 4] = [0xFA, 0xC8, 0x7D, 0xFF];

/// An error.
pub const BAD: [u8; 4] = [0xFA, 0x6D, 0x5F, 0xFF];

/// Text on a filled button.
pub const ON_FILL: [u8; 4] = [0xF5, 0xF3, 0xFF, 0xFF];

/// The panel behind everything.
pub const PANEL_FILL: [u8; 4] = [0x1B, 0x1B, 0x1B, 0xFF];

/// The carved part of the glyph's track: the panel's colour at about two fifths.
pub const CARVED: [u8; 4] = [0x1B, 0x1B, 0x1B, 0x66];

/// The glyph's bright edge.
pub const PLAYHEAD: [u8; 4] = [0xF5, 0xF3, 0xFF, 0xFF];

/// How many times as large the glyph is drawn.
pub const SUPERSAMPLE: u32 = 4;

/// The edge of the window's icon.
pub const WINDOW_ICON_SIZE: u32 = 32;

/// How far a point lies outside `low..high`.
pub open spec fn overshoot(p: int, low: int, high: int) -> int {
    if p < low {
        low - p
    } else if p > high {
        p - high
    } else {
        0
    }
}

/// Whether a point lies in the rounded square from `x0` to `x1`, in both directions, with corner
/// radius `r`.
pub open spec fn in_rounded(px: int, py: int, x0: int, x1: int, r: int) -> bool {
    let dx = overshoot(px, x0 + r, x1 - r);
    let dy = overshoot(py, x0 + r, x1 - r);
    x0 <= px <= x1 && x0 <= py <= x1 && dx * dx + dy * dy <= r * r
}

/// The middle of sample `x`.
pub open spec fn middle(x: int) -> int {
    x * 10_000 + 5_000
}

/// Whether sample `(x, y)` of a glyph with `n` samples an edge lies in its chip: a square with
/// rounded corners, a little smaller than the glyph.
pub open spec fn in_chip(n: int, x: int, y: int) -> bool {
    in_rounded(middle(x), middle(y), n * 800, n * 9_200, n * 1_848)
}

/// Whether a sample lies in the track: a band across the chip.
pub open spec fn in_track(n: int, x: int, y: int) -> bool {
    n * 3_900 <= middle(y) <= n * 6_100 && n * 1_400 <= middle(x) <= n * 8_600
}

/// How far a sample lies behind the edge of the kept part, three fifths along the track.
pub open spec fn behind_edge(n: int, x: int) -> int {
    middle(x) - n * 5_720
}

/// The colour of sample `(x, y)`: nothing outside the chip; in the track the bright edge, carved
/// before it; elsewhere the chip's colour.
pub open spec fn sample_color(chip: [u8; 4], n: int, x: int, y: int) -> [u8; 4] {
    let edge = behind_edge(n, x);
    if !in_chip(n, x, y) {
        [0u8, 0u8, 0u8, 0u8]
    } else if in_track(n, x, y) && -36_000 <= edge <= 36_000 {
        PLAYHEAD
    } else if in_track(n, x, y) && edge < 0 {
        CARVED
    } else {
        chip
    }
}

/// The first `k` samples, row by row.
pub open spec fn samples(chip: [u8; 4], n: int, k: int) -> Seq<u8>
    decreases k,
{
    if k <= 0 {
        Seq::empty()
    } else {
        samples(chip, n, k - 1) + sample_color(chip, n, (k - 1) % n, (k - 1) / n)@
    }
}

/// How far a point lies outside `low..high`.
fn outside_by(p: i64, low: i64, high: i64) -> (d: i64)
    requires
        -0x4000_0000_0000 <= p <= 0x4000_0000_0000,
        -0x4000_0000_0000 <= low <= 0x4000_0000_0000,
        -0x4000_0000_0000 <= high <= 0x4000_0000_0000,
    ensures
        d == overshoot(p as int, low as int, high as int),
{
    if p < low {
        low - p
    } else if p > high {
        p - high
    } else {
        0
    }
}

/// Whether a point lies in a rounded square.
pub fn in_rounded_rect(px: i64, py: i64, x0: i64, x1: i64, r: i64) -> (b: bool)
    requires
        0 <= px <= 0x4000_0000,
        0 <= py <= 0x4000_0000,
        0 <= x0 <= x1 <= 0x4000_0000,
        0 <= r <= 0x4000_0000,
    ensures
        b == in_rounded(px as int, py as int, x0 as int, x1 as int, r as int),
{
    if px < x0 || px > x1 || py < x0 || py > x1 {
        return false;
    }
    let dx: i64 = outside_by(px, x0 + r, x1 - r);
    let dy: i64 = outside_by(py, x0 + r, x1 - r);
    assert(0 <= dx * dx <= 0x1000_0000_0000_0000) by (nonlinear_arith)
        requires
            0 <= dx <= 0x4000_0000,
    ;
    assert(0 <= dy * dy <= 0x1000_0000_0000_0000) by (nonlinear_arith)
        requires
            0 <= dy <= 0x4000_0000,
    ;
    assert(0 <= r * r <= 0x1000_0000_0000_0000) by (nonlinear_arith)
        requires
            0 <= r <= 0x4000_0000,
    ;
    dx * dx + dy * dy <= r * r
}

/// The colour of one sample of the glyph.
pub fn glyph_sample(chip: [u8; 4], n: u32, x: u32, y: u32) -> (c: [u8; 4])
    requires
        x < n,
        y < n,
        n <= 0x8000,
    ensures
        c == sample_color(chip, n as int, x as int, y as int),
{
    let edge: i64 = n as i64;
    let px: i64 = x as i64 * 10_000 + 5_000;
    let py: i64 = y as i64 * 10_000 + 5_000;
    if !in_rounded_rect(px, py, edge * 800, edge * 9_200, edge * 1_848) {
        return [0, 0, 0, 0];
    }
    let in_track: bool = edge * 3_900 <= py && py <= edge * 6_100 && edge * 1_400 <= px && px
        <= edge * 8_600;
    let behind: i64 = px - edge * 5_720;
    if in_track && -36_000 <= behind && behind <= 36_000 {
        PLAYHEAD
    } else if in_track && behind < 0 {
        CARVED
    } else {
        chip
    }
}

/// Append one colour.
fn push_color(out: &mut Vec<u8>, c: [u8; 4])
    ensures
        final(out)@ == old(out)@ + c@,
{
    let ghost before = out@;
    out.push(c[0]);
    out.push(c[1]);
    out.push(c[2]);
    out.push(c[3]);
    assert(out@ =~= before + c@);
}

/// The length of the first samples.
proof fn lemma_samples_len(chip: [u8; 4], n: int, k: int)
    requires
        0 <= k,
    ensures
        samples(chip, n, k).len() == 4 * k,
    decreases k,
{
    if k > 0 {
        lemma_samples_len(chip, n, k - 1);
    }
}

/// Draw the glyph's samples.
fn draw_samples(chip: [u8; 4], n: u32) -> (out: Vec<u8>)
    requires
        n <= 0x8000,
    ensures
        out@ == samples(chip, n as int, n * n),
        out@.len() == 4 * (n * n),
{
    let mut out: Vec<u8> = Vec::new();
    assert(0 <= n * n <= 0x4000_0000) by (nonlinear_arith)
        requires
            0 <= n <= 0x8000,
    ;
    let mut y: u32 = 0;
    assert(0 * n == 0) by (nonlinear_arith);
    while y < n
        invariant
            y <= n,
            n <= 0x8000,
            out@ == samples(chip, n as int, y * n),
        decreases n - y,
    {
        let mut x: u32 = 0;
        while x < n
            invariant
                x <= n,
                y < n,
                n <= 0x8000,
                out@ == samples(chip, n as int, y * n + x),
            decreases n - x,
        {
            proof {
                lemma_row(n as int, x as int, y as int);
                assert(0 <= y * n) by (nonlinear_arith)
                    requires
                        0 <= y,
                        0 <= n,
                ;
            }
            push_color(&mut out, glyph_sample(chip, n, x, y));
            x = x + 1;
        }
        assert((y + 1) * n == y * n + n) by (nonlinear_arith);
        y = y + 1;
    }
    proof {
        lemma_samples_len(chip, n as int, n * n);
    }
    out
}

/// The row and column of a sample.
proof fn lemma_row(n: int, x: int, y: int)
    requires
        0 <= x < n,
        0 <= y,
    ensures
        (y * n + x) % n == x,
        (y * n + x) / n == y,
{
    vstd::arithmetic::div_mod::lemma_fundamental_div_mod_converse(y * n + x, n, y, x);
}

/// Where sample `k` of the block of pixel `p` stands in a picture with `n` samples an edge, if
/// `size` pixels of `ss` samples an edge are made of it.
pub open spec fn block_index(n: int, ss: int, size: int, p: int, k: int) -> int {
    let x = (p % size) * ss + k % ss;
    let y = (p / size) * ss + k / ss;
    (y * n + x) * 4
}

/// The sum over the first `k` samples of a block of their alpha.
pub open spec fn alpha_sum(src: Seq<u8>, n: int, ss: int, size: int, p: int, k: int) -> int
    decreases k,
{
    if k <= 0 {
        0
    } else {
        alpha_sum(src, n, ss, size, p, k - 1) + src[block_index(n, ss, size, p, k - 1) + 3]
    }
}

/// The sum over the first `k` samples of a block of channel `c`, weighted by alpha.
pub open spec fn color_sum(src: Seq<u8>, n: int, ss: int, size: int, p: int, k: int, c: int) -> int
    decreases k,
{
    if k <= 0 {
        0
    } else {
        let o = block_index(n, ss, size, p, k - 1);
        color_sum(src, n, ss, size, p, k - 1, c) + src[o + c] * src[o + 3]
    }
}

/// The colour of pixel `p`: each channel the mean of its block weighted by alpha, so that what is
/// transparent adds no colour, and alpha the plain mean, both rounded down.
pub open spec fn pixel(src: Seq<u8>, n: int, ss: int, size: int, p: int) -> Seq<u8> {
    let area = ss * ss;
    let alpha = alpha_sum(src, n, ss, size, p, area);
    let weight = if alpha < 1 {
        1
    } else {
        alpha
    };
    seq![
        (color_sum(src, n, ss, size, p, area, 0) / weight) as u8,
        (color_sum(src, n, ss, size, p, area, 1) / weight) as u8,
        (color_sum(src, n, ss, size, p, area, 2) / weight) as u8,
        (alpha / area) as u8,
    ]
}

/// The first `k` pixels.
pub open spec fn pixels(src: Seq<u8>, n: int, ss: int, size: int, k: int) -> Seq<u8>
    decreases k,
{
    if k <= 0 {
        Seq::empty()
    } else {
        pixels(src, n, ss, size, k - 1) + pixel(src, n, ss, size, k - 1)
    }
}

/// A block's samples stand in the picture.
proof fn lemma_block_index(n: int, ss: int, size: int, p: int, k: int)
    requires
        0 < ss,
        0 < size,
        size * ss <= n,
        0 <= p < size * size,
        0 <= k < ss * ss,
    ensures
        0 <= block_index(n, ss, size, p, k),
        block_index(n, ss, size, p, k) + 4 <= 4 * (n * n),
        0 <= (p % size) * ss + k % ss < n,
        0 <= (p / size) * ss + k / ss < n,
        0 <= p / size < size,
        0 <= k / ss < ss,
{
    let ox = p % size;
    let oy = p / size;
    let sx = k % ss;
    let sy = k / ss;
    assert(0 <= oy < size) by (nonlinear_arith)
        requires
            0 < size,
            0 <= p < size * size,
            oy == p / size,
    ;
    assert(0 <= sy < ss) by (nonlinear_arith)
        requires
            0 < ss,
            0 <= k < ss * ss,
            sy == k / ss,
    ;
    assert(0 <= ox * ss + sx < size * ss) by (nonlinear_arith)
        requires
            0 <= ox < size,
            0 <= sx < ss,
    ;
    assert(0 <= oy * ss + sy < size * ss) by (nonlinear_arith)
        requires
            0 <= oy < size,
            0 <= sy < ss,
    ;
    let x = ox * ss + sx;
    let y = oy * ss + sy;
    assert(0 <= y * n + x && y * n + x + 1 <= n * n) by (nonlinear_arith)
        requires
            0 <= x < n,
            0 <= y < n,
    ;
}

/// The sums over a block are bounded.
proof fn lemma_sums(src: Seq<u8>, n: int, ss: int, size: int, p: int, k: int, c: int)
    requires
        0 <= k,
    ensures
        0 <= alpha_sum(src, n, ss, size, p, k) <= 255 * k,
        0 <= color_sum(src, n, ss, size, p, k, c) <= 255 * alpha_sum(src, n, ss, size, p, k),
    decreases k,
{
    if k > 0 {
        lemma_sums(src, n, ss, size, p, k - 1, c);
        let o = block_index(n, ss, size, p, k - 1);
        let v = src[o + c] as int;
        let a = src[o + 3] as int;
        assert(0 <= v * a <= 255 * a) by (nonlinear_arith)
            requires
                0 <= v <= 255,
                0 <= a,
        ;
    }
}

/// The pixels' length.
proof fn lemma_pixels_len(src: Seq<u8>, n: int, ss: int, size: int, k: int)
    requires
        0 <= k,
    ensures
        pixels(src, n, ss, size, k).len() == 4 * k,
    decreases k,
{
    if k > 0 {
        lemma_pixels_len(src, n, ss, size, k - 1);
    }
}

/// The colour of one pixel.
fn average(src: &[u8], n: u32, ss: u32, size: u32, p: u32) -> (c: [u8; 4])
    requires
        0 < ss,
        0 < size,
        size * ss <= n,
        n <= 0x8000,
        p < size * size,
        src@.len() == 4 * (n * n),
    ensures
        c@ == pixel(src@, n as int, ss as int, size as int, p as int),
{
    assert(ss <= n) by (nonlinear_arith)
        requires
            0 < ss,
            0 < size,
            size * ss <= n,
    ;
    assert(0 < ss * ss <= 0x4000_0000) by (nonlinear_arith)
        requires
            0 < ss <= 0x8000,
    ;
    let area: u32 = ss * ss;
    let ghost (gn, gs, gz, gp) = (n as int, ss as int, size as int, p as int);
    let mut rgb: [u64; 3] = [0, 0, 0];
    let mut asum: u64 = 0;
    let mut k: u32 = 0;
    while k < area
        invariant
            k <= area,
            area == ss * ss,
            area <= 0x4000_0000,
            0 < ss,
            0 < size,
            size * ss <= n,
            n <= 0x8000,
            p < size * size,
            src@.len() == 4 * (n * n),
            gn == n && gs == ss && gz == size && gp == p,
            asum == alpha_sum(src@, gn, gs, gz, gp, k as int),
            rgb@[0] == color_sum(src@, gn, gs, gz, gp, k as int, 0),
            rgb@[1] == color_sum(src@, gn, gs, gz, gp, k as int, 1),
            rgb@[2] == color_sum(src@, gn, gs, gz, gp, k as int, 2),
        decreases area - k,
    {
        proof {
            lemma_block_index(gn, gs, gz, gp, k as int);
            lemma_sums(src@, gn, gs, gz, gp, k as int, 0);
            lemma_sums(src@, gn, gs, gz, gp, k as int, 1);
            lemma_sums(src@, gn, gs, gz, gp, k as int, 2);
            lemma_sums(src@, gn, gs, gz, gp, k + 1, 0);
            lemma_sums(src@, gn, gs, gz, gp, k + 1, 1);
            lemma_sums(src@, gn, gs, gz, gp, k + 1, 2);
        }
        let ghost bx = (gp % gz) * gs;
        let ghost by_ = (gp / gz) * gs;
        assert(0 <= bx <= n && 0 <= by_ <= n) by {
            assert(0 <= bx && 0 <= by_) by (nonlinear_arith)
                requires
                    0 <= gp % gz,
                    0 <= gp / gz,
                    0 < gs,
                    bx == (gp % gz) * gs,
                    by_ == (gp / gz) * gs,
            ;
        }
        let x: u32 = (p % size) * ss + k % ss;
        let y: u32 = (p / size) * ss + k / ss;
        assert(0 <= y * n + x < n * n <= 0x4000_0000) by (nonlinear_arith)
            requires
                0 <= x < n,
                0 <= y < n,
                n <= 0x8000,
        ;
        assert(0 <= y * n) by (nonlinear_arith)
            requires
                0 <= y,
                0 <= n,
        ;
        let o: usize = (y * n + x) as usize * 4;
        assert(o == block_index(gn, gs, gz, gp, k as int));
        let a: u64 = src[o + 3] as u64;
        assert(src[o as int] * a <= 0xFE01 && src[o + 1] * a <= 0xFE01 && src[o + 2] * a <= 0xFE01)
            by (nonlinear_arith)
            requires
                src[o as int] <= 255,
                src[o + 1] <= 255,
                src[o + 2] <= 255,
                a <= 255,
        ;
        let r: u64 = src[o] as u64 * a;
        let g: u64 = src[o + 1] as u64 * a;
        let b: u64 = src[o + 2] as u64 * a;
        rgb[0] = rgb[0] + r;
        rgb[1] = rgb[1] + g;
        rgb[2] = rgb[2] + b;
        asum = asum + a;
        k = k + 1;
    }
    proof {
        lemma_sums(src@, gn, gs, gz, gp, area as int, 0);
        lemma_sums(src@, gn, gs, gz, gp, area as int, 1);
        lemma_sums(src@, gn, gs, gz, gp, area as int, 2);
    }
    let weight: u64 = if asum < 1 {
        1
    } else {
        asum
    };
    assert(rgb@[0] / weight <= 255 && rgb@[1] / weight <= 255 && rgb@[2] / weight <= 255)
        by (nonlinear_arith)
        requires
            rgb@[0] <= 255 * weight,
            rgb@[1] <= 255 * weight,
            rgb@[2] <= 255 * weight,
            0 < weight,
    ;
    assert(asum / area as u64 <= 255) by (nonlinear_arith)
        requires
            asum <= 255 * area,
            0 < area,
    ;
    let c: [u8; 4] = [
        (rgb[0] / weight) as u8,
        (rgb[1] / weight) as u8,
        (rgb[2] / weight) as u8,
        (asum / area as u64) as u8,
    ];
    assert(c@ =~= pixel(src@, gn, gs, gz, gp));
    c
}

/// Average a picture of `n` samples an edge down to `size` pixels an edge, in blocks of `ss`
/// samples an edge.
pub fn downsample(src: &[u8], n: u32, ss: u32, size: u32) -> (out: Vec<u8>)
    requires
        0 < ss,
        size * ss <= n,
        n <= 0x8000,
        src@.len() == 4 * (n * n),
    ensures
        out@ == pixels(src@, n as int, ss as int, size as int, size * size),
        out@.len() == 4 * (size * size),
{
    assert(size <= n) by (nonlinear_arith)
        requires
            0 < ss,
            size * ss <= n,
    ;
    assert(0 <= size * size <= 0x4000_0000) by (nonlinear_arith)
        requires
            0 <= size <= 0x8000,
    ;
    let count: u32 = size * size;
    let mut out: Vec<u8> = Vec::new();
    let mut p: u32 = 0;
    while p < count
        invariant
            p <= count,
            count == size * size,
            0 < ss,
            size * ss <= n,
            n <= 0x8000,
            src@.len() == 4 * (n * n),
            out@ == pixels(src@, n as int, ss as int, size as int, p as int),
        decreases count - p,
    {
        assert(0 < size) by (nonlinear_arith)
            requires
                0 < size * size,
                0 <= size,
        ;
        push_color(&mut out, average(src, n, ss, size, p));
        p = p + 1;
    }
    proof {
        lemma_pixels_len(src@, n as int, ss as int, size as int, count as int);
    }
    out
}

/// The glyph in straight RGBA, `size` pixels an edge, tinted with `chip`: a rounded chip, a track
/// carved out of it, its kept tail, and a bright edge where that begins.
pub fn glyph_rgba(chip: [u8; 4], size: u32) -> (out: Vec<u8>)
    requires
        size <= 8_191,
    ensures
        out@ == pixels(
            samples(chip, 4 * size, (4 * size) * (4 * size)),
            4 * size,
            4,
            size as int,
            size * size,
        ),
        out@.len() == 4 * (size * size),
{
    let n: u32 = size * SUPERSAMPLE;
    let hi: Vec<u8> = draw_samples(chip, n);
    downsample(&hi, n, SUPERSAMPLE, size)
}

/// The window's icon: the glyph of the healthy state.
pub fn window_icon() -> (rgba: Vec<u8>)
    ensures
        rgba@ == pixels(
            samples(ACCENT, 128, 128 * 128int),
            128,
            4,
            WINDOW_ICON_SIZE as int,
            WINDOW_ICON_SIZE * WINDOW_ICON_SIZE,
        ),
        rgba@.len() == 4 * (WINDOW_ICON_SIZE * WINDOW_ICON_SIZE),
{
    glyph_rgba(ACCENT, WINDOW_ICON_SIZE)
}

/// Whether all samples of a block have the same colour.
pub open spec fn is_uniform(src: Seq<u8>, n: int, ss: int, size: int, p: int, color: [u8; 4]) -> bool {
    forall|k: int, c: int|
        0 <= k < ss * ss && 0 <= c < 4 ==> #[trigger] src[block_index(n, ss, size, p, k) + c]
            == color@[c]
}

/// The sums over a block of one colour.
proof fn lemma_uniform_sums(
    src: Seq<u8>,
    n: int,
    ss: int,
    size: int,
    p: int,
    color: [u8; 4],
    k: int,
    c: int,
)
    requires
        is_uniform(src, n, ss, size, p, color),
        0 <= k <= ss * ss,
        0 <= c < 3,
    ensures
        alpha_sum(src, n, ss, size, p, k) == color@[3] * k,
        color_sum(src, n, ss, size, p, k, c) == color@[c] * (color@[3] * k),
    decreases k,
{
    if k > 0 {
        lemma_uniform_sums(src, n, ss, size, p, color, k - 1, c);
        let o = block_index(n, ss, size, p, k - 1);
        assert(src[o + 3] == color@[3]);
        assert(src[o + c] == color@[c]);
        let v = color@[c] as int;
        let a = color@[3] as int;
        assert(a * k == a * (k - 1) + a) by (nonlinear_arith);
        assert(v * (a * k) == v * (a * (k - 1)) + v * a) by (nonlinear_arith);
    } else {
        assert(color@[3] * 0 == 0) by (nonlinear_arith);
        assert(color@[c] * (color@[3] * 0) == 0) by (nonlinear_arith);
    }
}

/// Law: a pixel whose samples all have the same opaque colour has that colour; averaging does not
/// change it.
pub proof fn lemma_solid_stays_solid(
    src: Seq<u8>,
    n: int,
    ss: int,
    size: int,
    p: int,
    color: [u8; 4],
)
    requires
        0 < ss,
        color@[3] > 0,
        is_uniform(src, n, ss, size, p, color),
    ensures
        pixel(src, n, ss, size, p) == color@,
{
    let area = ss * ss;
    assert(0 < area) by (nonlinear_arith)
        requires
            0 < ss,
            area == ss * ss,
    ;
    lemma_uniform_sums(src, n, ss, size, p, color, area, 0);
    lemma_uniform_sums(src, n, ss, size, p, color, area, 1);
    lemma_uniform_sums(src, n, ss, size, p, color, area, 2);
    let weight = color@[3] * area;
    assert(weight >= 1) by (nonlinear_arith)
        requires
            color@[3] > 0,
            area > 0,
            weight == color@[3] * area,
    ;
    vstd::arithmetic::div_mod::lemma_div_multiples_vanish(color@[0] as int, weight);
    vstd::arithmetic::div_mod::lemma_div_multiples_vanish(color@[1] as int, weight);
    vstd::arithmetic::div_mod::lemma_div_multiples_vanish(color@[2] as int, weight);
    vstd::arithmetic::div_mod::lemma_div_multiples_vanish(color@[3] as int, area);
    assert(color@[0] * weight == weight * color@[0]) by (nonlinear_arith);
    assert(color@[1] * weight == weight * color@[1]) by (nonlinear_arith);
    assert(color@[2] * weight == weight * color@[2]) by (nonlinear_arith);
    assert(color@[3] * area == area * color@[3]) by (nonlinear_arith);
    assert(pixel(src, n, ss, size, p) =~= color@);
}

} // verus!
