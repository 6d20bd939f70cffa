//! The overlay that confirms a save: what it says, how it looks, and how it fades.

use vstd::prelude::*;

use crate::text::{decimal, push_decimal};
use crate::ui::notify::{to_whole_seconds, whole_seconds};
use crate::ui::theme::ACCENT_FILL;

verus! {

/// How long the overlay takes to appear, in microseconds.
pub const FADE_IN_US: u64 = 140_000;

/// How long it takes to vanish.
pub const FADE_OUT_US: u64 = 260_000;

/// How long it stays after a save.
pub const HOLD_SUCCESS_US: u64 = 3_000_000;

/// How long it stays after a save that failed.
pub const HOLD_FAILURE_US: u64 = 6_000_000;

/// The time between two frames.
pub const FRAME_US: u64 = 16_000;

/// The most characters of a reason that are shown.
pub const MAX_REASON_CHARS: usize = 72;

/// The colour of the text.
pub const PILL_TEXT: [u8; 3] = [0xF5, 0xF3, 0xFF];

/// A number of milliseconds in whole minutes, halves to the even one.
pub open spec fn whole_minutes(millis: int) -> int {
    let q = millis / 60_000;
    let r = millis % 60_000;
    if r > 30_000 || (r == 30_000 && q % 2 == 1) {
        q + 1
    } else {
        q
    }
}

/// A number of milliseconds in whole minutes.
fn to_whole_minutes(millis: u64) -> (mins: u64)
    ensures
        mins == whole_minutes(millis as int),
{
    let q: u64 = millis / 60_000;
    let r: u64 = millis % 60_000;
    if r > 30_000 || (r == 30_000 && q % 2 == 1) {
        q + 1
    } else {
        q
    }
}

/// A reason, cut with an ellipsis where it is too long.
pub open spec fn cut_reason(reason: Seq<char>) -> Seq<char> {
    if reason.len() <= MAX_REASON_CHARS {
        reason
    } else {
        reason.take(MAX_REASON_CHARS - 1) + "…"@
    }
}

/// A reason, cut with an ellipsis where it is too long.
pub fn truncate_reason(reason: &str) -> (s: String)
    ensures
        s@ == cut_reason(reason@),
{
    if reason.unicode_len() <= MAX_REASON_CHARS {
        return String::from_str(reason);
    }
    let kept: &str = reason.substring_char(0, MAX_REASON_CHARS - 1);
    assert(kept@ =~= reason@.take(MAX_REASON_CHARS - 1));
    let mut s: String = String::from_str(kept);
    s.append("…");
    s
}

/// What was saved.
pub open spec fn noun(recording: bool) -> Seq<char> {
    if recording {
        "Recording"@
    } else {
        "Clip"@
    }
}

/// How long what was saved is: long recordings in minutes.
pub open spec fn length_text(millis: int, recording: bool) -> Seq<char> {
    if recording && millis >= 60_000 {
        decimal(whole_minutes(millis)) + " min"@
    } else {
        decimal(whole_seconds(millis)) + " s"@
    }
}

/// What the overlay says.
pub open spec fn pill_words(ok: bool, millis: int, reason: Seq<char>, recording: bool) -> Seq<char> {
    if ok {
        noun(recording) + " saved · "@ + length_text(millis, recording)
    } else {
        noun(recording) + " NOT saved — "@ + cut_reason(reason)
    }
}

/// What the overlay says.
pub fn pill_text(ok: bool, millis: u64, reason: &str, recording: bool) -> (s: String)
    ensures
        s@ == pill_words(ok, millis as int, reason@, recording),
{
    let mut s: String = String::from_str(
        if recording {
            "Recording"
        } else {
            "Clip"
        },
    );
    if ok {
        s.append(" saved · ");
        let mut len: String = String::new();
        if recording && millis >= 60_000 {
            push_decimal(&mut len, to_whole_minutes(millis));
            len.append(" min");
        } else {
            push_decimal(&mut len, to_whole_seconds(millis));
            len.append(" s");
        }
        assert(len@ =~= length_text(millis as int, recording));
        s.append(len.as_str());
    } else {
        s.append(" NOT saved — ");
        let cut: String = truncate_reason(reason);
        s.append(cut.as_str());
    }
    s
}

/// How long the overlay stays.
pub open spec fn hold_of(ok: bool) -> u64 {
    if ok {
        HOLD_SUCCESS_US
    } else {
        HOLD_FAILURE_US
    }
}

/// How long the overlay stays: longer where there is a reason to read.
pub fn hold_for(ok: bool) -> (us: u64)
    ensures
        us == hold_of(ok),
{
    if ok {
        HOLD_SUCCESS_US
    } else {
        HOLD_FAILURE_US
    }
}

/// `255 * part / whole` rounded half up.
pub open spec fn share(part: int, whole: int) -> int {
    (510 * part + whole) / (2 * whole)
}

/// How opaque the overlay is after some time: it comes up to full, stays, and goes down to none.
pub open spec fn opacity(elapsed: int, hold: int) -> int {
    if elapsed < FADE_IN_US {
        share(elapsed, FADE_IN_US as int)
    } else if elapsed < FADE_IN_US + hold {
        255
    } else if elapsed < FADE_IN_US + hold + FADE_OUT_US {
        share(FADE_IN_US + hold + FADE_OUT_US - elapsed, FADE_OUT_US as int)
    } else {
        0
    }
}

/// How opaque the overlay is after some time.
pub fn alpha_at(elapsed_us: u64, hold_us: u64) -> (alpha: u8)
    ensures
        alpha == opacity(elapsed_us as int, hold_us as int),
{
    assert(FADE_IN_US == 140_000 && FADE_OUT_US == 260_000);
    if elapsed_us < FADE_IN_US {
        assert((510 * elapsed_us + 140_000) / 280_000 <= 255);
        ((510 * elapsed_us + FADE_IN_US) / (2 * FADE_IN_US)) as u8
    } else if elapsed_us - FADE_IN_US < hold_us {
        255
    } else {
        let fading: u64 = elapsed_us - FADE_IN_US - hold_us;
        if fading < FADE_OUT_US {
            let left: u64 = FADE_OUT_US - fading;
            assert((510 * left + 260_000) / 520_000 <= 255);
            ((510 * left + FADE_OUT_US) / (2 * FADE_OUT_US)) as u8
        } else {
            0
        }
    }
}

/// Law: the overlay only gets more opaque while it appears, is fully opaque while it stays, and
/// only gets less opaque while it vanishes.
pub proof fn lemma_fade_is_monotone(a: int, b: int, hold: int)
    requires
        0 <= a <= b,
        0 <= hold,
    ensures
        0 <= opacity(a, hold) <= 255,
        b < FADE_IN_US ==> opacity(a, hold) <= opacity(b, hold),
        FADE_IN_US <= a < FADE_IN_US + hold ==> opacity(a, hold) == 255,
        FADE_IN_US + hold <= a ==> opacity(b, hold) <= opacity(a, hold),
{
}

/// A show of the overlay.
pub struct PillShow {
    ok: bool,
    started_us: u64,
}

/// What the overlay does next.
#[derive(Debug, Clone, Copy, PartialEq, Eq, Structural)]
pub enum PillStep {
    /// Draw it this opaque.
    Draw(u8),
    /// Hide it: the show is over.
    Hide,
}

impl PillShow {
    /// How long the overlay stays.
    pub closed spec fn hold(&self) -> u64 {
        hold_of(self.ok)
    }

    /// When the show began.
    pub closed spec fn started(&self) -> u64 {
        self.started_us
    }

    /// A show that begins now.
    pub fn begin(now_us: u64, ok: bool) -> (show: Self)
        ensures
            show.started() == now_us,
            show.hold() == hold_of(ok),
    {
        PillShow { ok, started_us: now_us }
    }

    /// Another outcome takes the place of the one that is shown: the overlay stays fully opaque and
    /// its time begins anew.
    pub fn replace(&mut self, now_us: u64, ok: bool)
        ensures
            final(self).hold() == hold_of(ok),
            final(self).started() == if now_us >= FADE_IN_US {
                (now_us - FADE_IN_US) as u64
            } else {
                now_us
            },
    {
        self.ok = ok;
        self.started_us = if now_us >= FADE_IN_US {
            now_us - FADE_IN_US
        } else {
            now_us
        };
    }

    /// What the overlay does at a time: it is drawn until it has appeared, stayed and vanished.
    pub fn step(&self, now_us: u64) -> (step: PillStep)
        requires
            self.started() <= now_us,
        ensures
            step == if now_us - self.started() >= FADE_IN_US + self.hold() + FADE_OUT_US {
                PillStep::Hide
            } else {
                PillStep::Draw(opacity(now_us - self.started(), self.hold() as int) as u8)
            },
    {
        let elapsed: u64 = now_us - self.started_us;
        let hold: u64 = hold_for(self.ok);
        if elapsed >= FADE_IN_US + hold + FADE_OUT_US {
            PillStep::Hide
        } else {
            PillStep::Draw(alpha_at(elapsed, hold))
        }
    }
}

/// What the overlay's thread is told.
#[derive(Debug, Clone, PartialEq, Eq)]
pub enum PillCommand {
    /// Show an outcome: whether all went well, and what is said.
    Show(bool, String),
    /// End.
    Quit,
}

/// What a batch of commands comes to.
#[derive(Debug, Clone, Copy, PartialEq, Eq, Structural)]
pub enum PillNews {
    Nothing,
    /// The outcome at this place is shown.
    Show(usize),
    Quit,
}

/// Draw a batch of commands together: the newest outcome counts, and nothing does once the end was
/// asked for.
pub fn drain(commands: &[PillCommand]) -> (news: PillNews)
    ensures
        news is Quit <==> exists|i: int|
            0 <= i < commands@.len() && (#[trigger] commands@[i]) is Quit,
        news is Nothing <==> commands@.len() == 0,
        news matches PillNews::Show(i) ==> i + 1 == commands@.len() && commands@[i as int] is Show,
{
    let n: usize = commands.len();
    let mut news: PillNews = PillNews::Nothing;
    let mut i: usize = 0;
    while i < n
        invariant
            i <= n,
            n == commands@.len(),
            forall|k: int| 0 <= k < i ==> (#[trigger] commands@[k]) is Show,
            i == 0 ==> news is Nothing,
            i > 0 ==> news == PillNews::Show((i - 1) as usize),
        decreases n - i,
    {
        match &commands[i] {
            PillCommand::Show(_, _) => {
                news = PillNews::Show(i);
            },
            PillCommand::Quit => {
                assert(commands@[i as int] is Quit);
                return PillNews::Quit;
            },
        }
        i = i + 1;
    }
    news
}

/// The overlay's background.
pub fn pill_bg(ok: bool) -> (c: [u8; 3])
    ensures
        c@ == if ok {
            seq![ACCENT_FILL@[0], ACCENT_FILL@[1], ACCENT_FILL@[2]]
        } else {
            seq![0x7Au8, 0x2Au8, 0x24u8]
        },
{
    let c: [u8; 3] = if ok {
        [ACCENT_FILL[0], ACCENT_FILL[1], ACCENT_FILL[2]]
    } else {
        [0x7A, 0x2A, 0x24]
    };
    assert(c@ =~= if ok {
        seq![ACCENT_FILL@[0], ACCENT_FILL@[1], ACCENT_FILL@[2]]
    } else {
        seq![0x7Au8, 0x2Au8, 0x24u8]
    });
    c
}

/// A colour as the system packs it: red in the low byte, then green, then blue.
pub fn rgb(r: u8, g: u8, b: u8) -> (c: u32)
    ensures
        c == r + g * 0x100 + b * 0x1_0000,
{
    r as u32 + g as u32 * 0x100 + b as u32 * 0x1_0000
}

/// The larger of two numbers.
pub open spec fn larger(a: int, b: int) -> int {
    if a > b {
        a
    } else {
        b
    }
}

/// Whether a number of pixels can be held.
pub open spec fn fits_pixels(n: int) -> bool {
    i32::MIN <= n <= i32::MAX
}

/// The overlay's size and corner: the text and the padding around it, at least as high as a line,
/// in the lower right corner of the work area and a margin away from it. All in pixels.
pub fn pill_place(
    text: (i32, i32),
    pad: (i32, i32),
    font: i32,
    margin: i32,
    work_right: i32,
    work_bottom: i32,
) -> (r: (i32, i32, i32, i32))
    requires
        fits_pixels(2 * pad.0),
        fits_pixels(2 * pad.1),
        fits_pixels(larger(text.0 as int, 1) + 2 * pad.0),
        fits_pixels(larger(text.1 as int, 1) + 2 * pad.1),
        fits_pixels(font + 2 * pad.1),
        fits_pixels(work_right - (larger(text.0 as int, 1) + 2 * pad.0)),
        fits_pixels(work_right - (larger(text.0 as int, 1) + 2 * pad.0) - margin),
        fits_pixels(
            work_bottom - larger(larger(text.1 as int, 1) + 2 * pad.1, font + 2 * pad.1),
        ),
        fits_pixels(
            work_bottom - larger(larger(text.1 as int, 1) + 2 * pad.1, font + 2 * pad.1) - margin,
        ),
    ensures
        r.0 == larger(text.0 as int, 1) + 2 * pad.0,
        r.1 == larger(larger(text.1 as int, 1) + 2 * pad.1, font + 2 * pad.1),
        r.2 == work_right - r.0 - margin,
        r.3 == work_bottom - r.1 - margin,
{
    let text_w: i32 = if text.0 > 1 {
        text.0
    } else {
        1
    };
    let text_h: i32 = if text.1 > 1 {
        text.1
    } else {
        1
    };
    let width: i32 = text_w + 2 * pad.0;
    let fit: i32 = text_h + 2 * pad.1;
    let line: i32 = font + 2 * pad.1;
    let height: i32 = if fit > line {
        fit
    } else {
        line
    };
    (width, height, work_right - width - margin, work_bottom - height - margin)
}

/// Sizes on a screen of 96 dots an inch: the padding beside the text, above and below it, the
/// text, the margin, and the widest text.
pub const PAD_X: u32 = 16;

pub const PAD_Y: u32 = 9;

pub const FONT_SIZE: u32 = 15;

pub const MARGIN: u32 = 28;

pub const MAX_TEXT: u32 = 460;

/// A size on a screen of so many dots an inch, to the nearest pixel, halves up. A coarse screen is
/// taken for one of 96.
pub open spec fn scaled(size: int, dpi: int) -> int {
    (size * larger(dpi, 96) + 48) / 96
}

/// A size on a screen of so many dots an inch. One that is too large to hold is cut.
pub fn scaled_px(size: u32, dpi: u32) -> (px: i32)
    ensures
        px == if scaled(size as int, dpi as int) > i32::MAX {
            i32::MAX as int
        } else {
            scaled(size as int, dpi as int)
        },
        0 <= px,
{
    let s: u64 = size as u64;
    let d: u64 = if dpi > 96 {
        dpi as u64
    } else {
        96
    };
    assert(0 <= s * d <= 0xFFFF_FFFF * 0xFFFF_FFFF) by (nonlinear_arith)
        requires
            0 <= s <= 0xFFFF_FFFF,
            0 <= d <= 0xFFFF_FFFF,
    ;
    let px: u64 = (s * d + 48) / 96;
    if px > i32::MAX as u64 {
        i32::MAX
    } else {
        px as i32
    }
}

/// A distance from which on a point is outside of every bar, in half pixels.
const FAR: i128 = 0x4_0000_0000;

/// The greatest distance of a point that may be inside of a bar.
const MOST: u128 = 0x8_0000_0000;

/// The square of that distance, along both sides.
const MOST_2: u128 = 0x80_0000_0000_0000_0000;

/// How far a point is outside of the straight part of the overlay, along one side, in half pixels.
/// `n` is the side, in pixels, `r` the radius of the rounded ends, in half pixels.
pub open spec fn beyond(at: int, n: int, r: int) -> int {
    larger(distance_of(at, n) - (n - r), 0)
}

/// How far a point is inside of the straight part of the overlay, along one side, in half pixels.
pub open spec fn within(at: int, n: int, r: int) -> int {
    larger((n - r) - distance_of(at, n), 0)
}

/// How far a point is inside of the straight part of a bar: as far as it is along either side.
pub open spec fn depth(w: int, h: int, r: int, x: int, y: int) -> int {
    let (a, b) = (within(x, w, r), within(y, h, r));
    if a < b {
        a
    } else {
        b
    }
}

/// The distance of two numbers.
pub open spec fn distance_of(a: int, b: int) -> int {
    if a < b {
        b - a
    } else {
        a - b
    }
}

/// The radius of the rounded ends of a bar, in half pixels: what is asked for, or all that there is
/// room for.
pub open spec fn round_ends(w: int, h: int, r: int) -> int {
    if r <= w && r <= h {
        r
    } else if w < h {
        w
    } else {
        h
    }
}

/// The square of a point's distance from the middle of the round it lies in, in half pixels; zero
/// inside of the straight part.
pub open spec fn reach(w: int, h: int, r: int, x: int, y: int) -> int {
    beyond(x, w, r) * beyond(x, w, r) + beyond(y, h, r) * beyond(y, h, r)
}

/// Whether a colour of strength `c` may be drawn as strong as `v` where the square of the distance
/// is `d2`: the strength falls from full to none over a pixel around the edge at `r`.
pub open spec fn covers(c: int, r: int, d2: int, v: int) -> bool {
    let left = c * (r + 1) - 2 * v;
    left >= 0 && c * c * d2 <= left * left
}

/// The greatest strength up to `v` that may be drawn.
pub open spec fn shade_up_to(c: int, r: int, d2: int, v: int) -> int
    decreases v,
{
    if v <= 0 {
        0
    } else if covers(c, r, d2, v) {
        v
    } else {
        shade_up_to(c, r, d2, v - 1)
    }
}

/// How strong a colour of strength `c` is drawn.
pub open spec fn shade(c: int, r: int, d2: int) -> int {
    shade_up_to(c, r, d2, c)
}

/// A pixel of the overlay: blue, green, red, and how much it hides.
pub open spec fn pill_pixel(w: int, h: int, bg: Seq<u8>, p: int) -> Seq<u8> {
    let r = round_ends(w, h, h);
    let d2 = reach(w, h, r, 2 * (p % w) + 1, 2 * (p / w) + 1);
    seq![
        shade(bg[2] as int, r, d2) as u8,
        shade(bg[1] as int, r, d2) as u8,
        shade(bg[0] as int, r, d2) as u8,
        shade(255, r, d2) as u8,
    ]
}

/// The first pixels of the overlay.
pub open spec fn pill_pixels_up_to(w: int, h: int, bg: Seq<u8>, n: nat) -> Seq<u8>
    decreases n,
{
    if n == 0 {
        Seq::empty()
    } else {
        pill_pixels_up_to(w, h, bg, (n - 1) as nat) + pill_pixel(w, h, bg, n - 1)
    }
}

/// How strong a colour is drawn.
fn draw_shade(c: u8, r: u128, d2: u128) -> (v: u8)
    requires
        r <= MOST,
        d2 <= MOST_2,
    ensures
        v == shade(c as int, r as int, d2 as int),
{
    let mut v: u8 = c;
    let strength: u128 = c as u128;
    assert(0 <= strength * (r + 1) <= 255 * (MOST + 1)) by (nonlinear_arith)
        requires
            0 <= strength <= 255,
            0 <= r <= MOST,
    ;
    let full: u128 = strength * (r + 1);
    assert(0 <= strength * strength <= 65025) by (nonlinear_arith)
        requires
            0 <= strength <= 255,
    ;
    let square: u128 = strength * strength;
    assert(0 <= square * d2 <= 65025 * MOST_2) by (nonlinear_arith)
        requires
            0 <= square <= 65025,
            0 <= d2 <= MOST_2,
    ;
    let far: u128 = square * d2;
    while v > 0
        invariant
            v <= c,
            strength == c,
            full == c * (r + 1),
            far == c * c * d2,
            full <= 255 * (MOST + 1),
            shade(c as int, r as int, d2 as int) == shade_up_to(
                c as int,
                r as int,
                d2 as int,
                v as int,
            ),
        decreases v,
    {
        if full >= 2 * v as u128 {
            let left: u128 = full - 2 * v as u128;
            assert(0 <= left * left <= 0x1000_0000_0000 * 0x1000_0000_0000) by (nonlinear_arith)
                requires
                    0 <= left <= 0x1000_0000_0000,
            ;
            if far <= left * left {
                return v;
            }
        }
        v = v - 1;
    }
    v
}

/// How far a point is outside of the straight part, along one side, and how far inside.
fn beyond_side(at: i128, n: i128, r: i128) -> (d: (u128, u128))
    requires
        -FAR <= at <= FAR,
        0 <= r <= n <= u32::MAX,
    ensures
        d.0 == beyond(at as int, n as int, r as int),
        d.1 == within(at as int, n as int, r as int),
        d.0 <= MOST,
        d.1 <= u32::MAX,
{
    let off: i128 = if at < n {
        n - at
    } else {
        at - n
    };
    let past: i128 = off - (n - r);
    if past > 0 {
        (past as u128, 0)
    } else {
        (0, (0 - past) as u128)
    }
}

/// The radius of the rounded ends of a bar.
fn fit_radius(w: u32, h: u32, r: u32) -> (fit: u32)
    ensures
        fit == round_ends(w as int, h as int, r as int),
        fit <= w,
        fit <= h,
{
    if r <= w && r <= h {
        r
    } else if w < h {
        w
    } else {
        h
    }
}

/// The square of a point's distance from the middle of the round it lies in, and how far it is
/// inside of the straight part.
fn find_reach(w: u32, h: u32, r: u32, x: i128, y: i128) -> (d: (u128, u128))
    requires
        r <= w,
        r <= h,
        -FAR <= x <= FAR,
        -FAR <= y <= FAR,
    ensures
        d.0 == reach(w as int, h as int, r as int, x as int, y as int),
        d.0 <= MOST_2,
        d.1 == depth(w as int, h as int, r as int, x as int, y as int),
        d.1 <= u32::MAX,
{
    let (dx, ix): (u128, u128) = beyond_side(x, w as i128, r as i128);
    let (dy, iy): (u128, u128) = beyond_side(y, h as i128, r as i128);
    assert(0 <= dx * dx <= 0x40_0000_0000_0000_0000) by (nonlinear_arith)
        requires
            0 <= dx <= 0x8_0000_0000,
    ;
    assert(0 <= dy * dy <= 0x40_0000_0000_0000_0000) by (nonlinear_arith)
        requires
            0 <= dy <= 0x8_0000_0000,
    ;
    (
        dx * dx + dy * dy,
        if ix < iy {
            ix
        } else {
            iy
        },
    )
}

/// How much of a point a bar with rounded ends hides, from none at 0 to all at 255. The point and
/// the radius are in half pixels, the bar in pixels; a point may lie outside of the bar.
pub fn rounded_rect_coverage(x: i64, y: i64, w: u32, h: u32, r: u32) -> (alpha: u8)
    ensures
        ({
            let fit = round_ends(w as int, h as int, r as int);
            let inner = depth(w as int, h as int, fit, x as int, y as int);
            alpha == shade(255, fit + inner, reach(w as int, h as int, fit, x as int, y as int))
        }),
{
    let fit: u32 = fit_radius(w, h, r);
    let (px, py): (i128, i128) = (x as i128, y as i128);
    if px < -FAR || px > FAR || py < -FAR || py > FAR {
        proof {
            let (bw, bh, br) = (w as int, h as int, fit as int);
            lemma_far_is_outside(bw, bh, br, x as int, y as int);
        }
        return 0;
    }
    let (d2, inner): (u128, u128) = find_reach(w, h, fit, px, py);
    draw_shade(255, fit as u128 + inner, d2)
}

/// The overlay's background, pixel by pixel: a bar with fully rounded ends and a smooth edge. The
/// colours are as strong as the pixel hides.
pub fn pill_pixels(width: u32, height: u32, bg: [u8; 3]) -> (out: Vec<u8>)
    requires
        1 <= width,
        1 <= height,
        width * height * 4 <= i32::MAX,
    ensures
        out@ == pill_pixels_up_to(
            width as int,
            height as int,
            bg@,
            (width as nat) * (height as nat),
        ),
{
    let r: u32 = fit_radius(width, height, height);
    assert(width as nat * height as nat == width * height);
    assert(0 <= width * height) by (nonlinear_arith)
        requires
            1 <= width,
            1 <= height,
    ;
    let total: u32 = width * height;
    let mut out: Vec<u8> = Vec::new();
    let mut p: u32 = 0;
    assert(out@ =~= pill_pixels_up_to(width as int, height as int, bg@, 0));
    while p < total
        invariant
            p <= total,
            total == width * height,
            1 <= width,
            1 <= height,
            r == round_ends(width as int, height as int, height as int),
            r <= width,
            r <= height,
            out@ == pill_pixels_up_to(width as int, height as int, bg@, p as nat),
        decreases total - p,
    {
        let ghost before = out@;
        let x: u32 = p % width;
        let y: u32 = p / width;
        assert(x < width && y < height) by (nonlinear_arith)
            requires
                x == p % width,
                y == p / width,
                p < width * height,
                width >= 1,
        ;
        let (d2, _inner): (u128, u128) = find_reach(
            width,
            height,
            r,
            2 * x as i128 + 1,
            2 * y as i128 + 1,
        );
        out.push(draw_shade(bg[2], r as u128, d2));
        out.push(draw_shade(bg[1], r as u128, d2));
        out.push(draw_shade(bg[0], r as u128, d2));
        out.push(draw_shade(255, r as u128, d2));
        assert(out@ =~= before + pill_pixel(width as int, height as int, bg@, p as int));
        p = p + 1;
    }
    assert((width as nat) * (height as nat) == total);
    out
}

/// A point more than half a pixel outside of the edge is not drawn.
proof fn lemma_outside_is_clear(c: int, r: int, d2: int, v: int)
    requires
        0 < c,
        0 <= r,
        d2 >= (r + 1) * (r + 1),
        v <= c,
    ensures
        shade_up_to(c, r, d2, v) == 0,
    decreases v,
{
    if v > 0 {
        lemma_outside_is_clear(c, r, d2, v - 1);
        let left = c * (r + 1) - 2 * v;
        let full = c * (r + 1);
        if left >= 0 {
            assert(left * left < full * full) by (nonlinear_arith)
                requires
                    0 <= left < full,
            ;
            assert(full * full <= c * c * d2) by (nonlinear_arith)
                requires
                    full == c * (r + 1),
                    d2 >= (r + 1) * (r + 1),
                    0 < c,
                    0 <= r,
            ;
        }
    }
}

/// A point far from a bar is not drawn.
proof fn lemma_far_is_outside(w: int, h: int, r: int, x: int, y: int)
    requires
        0 <= r <= w <= u32::MAX,
        r <= h <= u32::MAX,
        x < -FAR || x > FAR || y < -FAR || y > FAR,
    ensures
        shade(255, r + depth(w, h, r, x, y), reach(w, h, r, x, y)) == 0,
{
    let dx = beyond(x, w, r);
    let dy = beyond(y, h, r);
    assert(depth(w, h, r, x, y) == 0);
    assert(dx >= r + 1 || dy >= r + 1);
    assert(dx * dx + dy * dy >= (r + 1) * (r + 1)) by (nonlinear_arith)
        requires
            0 <= r,
            0 <= dx,
            0 <= dy,
            dx >= r + 1 || dy >= r + 1,
    ;
    lemma_outside_is_clear(255, r, reach(w, h, r, x, y), 255);
}

/// Law: a pixel well inside of the edge is drawn in full, one well outside not at all: half a
/// pixel is enough.
pub proof fn lemma_edge_is_a_pixel_wide(c: int, r: int, d2: int)
    requires
        0 < c,
        1 <= r,
        0 <= d2,
    ensures
        d2 <= (r - 1) * (r - 1) ==> shade(c, r, d2) == c,
        d2 >= (r + 1) * (r + 1) ==> shade(c, r, d2) == 0,
{
    if d2 <= (r - 1) * (r - 1) {
        let left = c * (r + 1) - 2 * c;
        assert(left == c * (r - 1) && left >= 0) by (nonlinear_arith)
            requires
                left == c * (r + 1) - 2 * c,
                c > 0,
                r >= 1,
        ;
        assert(c * c * d2 <= left * left) by (nonlinear_arith)
            requires
                left == c * (r - 1),
                0 <= d2 <= (r - 1) * (r - 1),
        ;
    }
    if d2 >= (r + 1) * (r + 1) {
        lemma_outside_is_clear(c, r, d2, c);
    }
}

} // verus!
