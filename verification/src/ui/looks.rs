//! What the tray, the notices and the overlay show.

use vstd::prelude::*;

use crate::engine::TrayState;
use crate::reading::{digits_only, lemma_decimal_reads_back};
use crate::text::{decimal, number};
use crate::ui::notify::{click_of, toast_body, whole_seconds, TrayClick};
use crate::ui::pill::{
    beyond, covers, cut_reason, distance_of, hold_of, opacity, pill_pixel, pill_pixels_up_to,
    pill_words, reach, round_ends, scaled, shade, shade_up_to, share, whole_minutes, FADE_IN_US,
    FADE_OUT_US, HOLD_FAILURE_US, HOLD_SUCCESS_US,
};
use crate::ui::tray::{
    action_of, clicked, round_end, swapped, tooltip_text, MenuAction, ShellAction, ShellOutcome,
    ShellView,
};
use crate::ui::window_state::{opening_of, VirtualScreen, WindowState};

verus! {

/// Law: seconds and minutes are shown to the nearest, and a half to the even one.
pub proof fn lemma_times_are_shown_to_the_nearest(millis: int)
    requires
        0 <= millis,
    ensures
        -500 <= whole_seconds(millis) * 1_000 - millis <= 500,
        whole_seconds(millis) * 1_000 - millis == 500 || millis - whole_seconds(millis) * 1_000
            == 500 ==> whole_seconds(millis) % 2 == 0,
        -30_000 <= whole_minutes(millis) * 60_000 - millis <= 30_000,
        whole_minutes(millis) * 60_000 - millis == 30_000 || millis - whole_minutes(millis) * 60_000
            == 30_000 ==> whole_minutes(millis) % 2 == 0,
{
}

/// Law: the notice of a save that went well tells how long the clip is, in seconds that read back, and
/// that of one that failed tells all of the reason.
pub proof fn lemma_notice_tells_what_came_of_it(millis: int, reason: Seq<char>) -> (n: Seq<char>)
    requires
        0 <= millis,
    ensures
        toast_body(true, millis, reason) == "Clip saved · "@ + n + " s"@,
        digits_only(n),
        -500 <= number(n) * 1_000 - millis <= 500,
        toast_body(false, millis, reason) == "Clip NOT saved — "@ + reason,
{
    lemma_decimal_reads_back(whole_seconds(millis));
    decimal(whole_seconds(millis))
}

/// Law: the overlay tells a clip's length in seconds, and a recording's too, until that lasts a
/// minute; then in minutes. The numbers read back.
pub proof fn lemma_overlay_tells_the_length(millis: int, reason: Seq<char>, recording: bool) -> (n: Seq<
    char,
>)
    requires
        0 <= millis,
    ensures
        digits_only(n),
        recording && millis >= 60_000 ==> pill_words(true, millis, reason, recording)
            == "Recording"@ + " saved · "@ + (n + " min"@) && -30_000 <= number(n) * 60_000 - millis
            <= 30_000,
        recording && millis < 60_000 ==> pill_words(true, millis, reason, recording)
            == "Recording"@ + " saved · "@ + (n + " s"@) && -500 <= number(n) * 1_000 - millis
            <= 500,
        !recording ==> pill_words(true, millis, reason, recording) == "Clip"@ + " saved · "@ + (n
            + " s"@) && -500 <= number(n) * 1_000 - millis <= 500,
{
    let shown = if recording && millis >= 60_000 {
        whole_minutes(millis)
    } else {
        whole_seconds(millis)
    };
    lemma_decimal_reads_back(shown);
    decimal(shown)
}

/// Law: a reason of up to 72 characters is told whole. A longer one is cut to 72, the last of which is
/// an ellipsis, and what stands before that is the reason's beginning.
pub proof fn lemma_reason_is_told_as_far_as_it_fits(reason: Seq<char>)
    ensures
        reason.len() <= 72 ==> cut_reason(reason) == reason,
        reason.len() > 72 ==> cut_reason(reason).len() == 72 && cut_reason(reason).take(71)
            == reason.take(71) && cut_reason(reason)[71] == '…',
{
    reveal_strlit("…");
    if reason.len() > 72 {
        assert(cut_reason(reason).take(71) =~= reason.take(71));
    }
}

/// Law: the overlay appears over 140 milliseconds, stays, for three seconds or, where something is to
/// be read, six, and vanishes over 260. In between, its opacity is the share of the time that has
/// passed or is left, to the nearest.
pub proof fn lemma_overlay_keeps_its_times(t: int, ok: bool)
    requires
        0 <= t,
    ensures
        ({
            let stay = if ok {
                3_000_000int
            } else {
                6_000_000
            };
            let hold = hold_of(ok) as int;
            let left = 140_000 + stay + 260_000 - t;
            &&& hold == stay
            &&& t <= 140_000 ==> -140_000 <= 2 * (opacity(t, hold) * 140_000 - 255 * t) <= 140_000
            &&& 140_000 <= t <= 140_000 + stay ==> opacity(t, hold) == 255
            &&& 0 <= left <= 260_000 ==> -260_000 <= 2 * (opacity(t, hold) * 260_000 - 255 * left)
                <= 260_000
            &&& left <= 0 ==> opacity(t, hold) == 0
        }),
{
    let hold = hold_of(ok) as int;
    let left = 140_000 + hold + 260_000 - t;
    assert(FADE_IN_US == 140_000 && FADE_OUT_US == 260_000);
    assert(HOLD_SUCCESS_US == 3_000_000 && HOLD_FAILURE_US == 6_000_000);
    assert(share(t, 140_000) == (510 * t + 140_000) / 280_000);
    assert(share(left, 260_000) == (510 * left + 260_000) / 520_000);
}

/// Law: a size on a finer screen is in proportion to its dots, to the nearest pixel; on a coarse one it
/// is as it is.
pub proof fn lemma_sizes_go_with_the_screen(size: int, dpi: int)
    requires
        0 <= size,
    ensures
        dpi <= 96 ==> scaled(size, dpi) == size,
        dpi >= 96 ==> -96 <= 2 * (scaled(size, dpi) * 96 - size * dpi) <= 96,
{
    if dpi <= 96 {
        assert(scaled(size, dpi) == (size * 96 + 48) / 96);
    } else {
        assert(scaled(size, dpi) == (size * dpi + 48) / 96);
    }
}

/// Law: the overlay looks the same in a mirror, and upside down: a point as far from one edge as
/// another from the opposite one is as deep in the round.
pub proof fn lemma_overlay_is_symmetric(w: int, h: int, r: int, x: int, y: int)
    ensures
        reach(w, h, r, 2 * w - x, y) == reach(w, h, r, x, y),
        reach(w, h, r, x, 2 * h - y) == reach(w, h, r, x, y),
        reach(w, h, r, w, h) == 0 || r > w || r > h,
{
    assert(distance_of(2 * w - x, w) == distance_of(x, w));
    assert(distance_of(2 * h - y, h) == distance_of(y, h));
    if r <= w && r <= h {
        assert(beyond(w, w, r) == 0 && beyond(h, h, r) == 0);
        assert(reach(w, h, r, w, h) == 0int * 0 + 0int * 0);
    }
}

/// The strength that is drawn can be, and none that is greater.
proof fn lemma_greatest_shade(c: int, r: int, d2: int, v: int, more: int)
    requires
        0 <= v,
        0 < more <= v,
        covers(c, r, d2, more),
    ensures
        more <= shade_up_to(c, r, d2, v) <= v,
    decreases v,
{
    if !covers(c, r, d2, v) {
        lemma_greatest_shade(c, r, d2, v - 1, more);
    }
}

/// What is drawn is no stronger than what was asked for.
proof fn lemma_shade_bounds(c: int, r: int, d2: int, v: int)
    requires
        0 <= v,
    ensures
        0 <= shade_up_to(c, r, d2, v) <= v,
    decreases v,
{
    if v > 0 && !covers(c, r, d2, v) {
        lemma_shade_bounds(c, r, d2, v - 1);
    }
}

/// What covers a point covers one that lies further inside.
proof fn lemma_covers_inside(c: int, r: int, near: int, far: int, v: int)
    requires
        0 <= c,
        0 <= near <= far,
        covers(c, r, far, v),
    ensures
        covers(c, r, near, v),
{
    assert(c * c * near <= c * c * far) by (nonlinear_arith)
        requires
            0 <= c,
            0 <= near <= far,
    ;
}

/// Law: the overlay gets no stronger toward its edge: of two points the one that lies further out is
/// drawn no stronger, and none stronger than the colour is.
pub proof fn lemma_overlay_fades_outward(c: int, r: int, near: int, far: int)
    requires
        0 <= c,
        0 <= near <= far,
    ensures
        0 <= shade(c, r, far) <= shade(c, r, near) <= c,
{
    lemma_shade_bounds(c, r, near, c);
    lemma_shade_bounds(c, r, far, c);
    let v = shade(c, r, far);
    if v > 0 {
        lemma_shade_is_covered(c, r, far, c);
        lemma_covers_inside(c, r, near, far, v);
        lemma_greatest_shade(c, r, near, c, v);
    }
}

/// What is drawn, where anything is, may be.
proof fn lemma_shade_is_covered(c: int, r: int, d2: int, v: int)
    requires
        shade_up_to(c, r, d2, v) > 0,
    ensures
        covers(c, r, d2, shade_up_to(c, r, d2, v)),
    decreases v,
{
    if v > 0 && !covers(c, r, d2, v) {
        lemma_shade_is_covered(c, r, d2, v - 1);
    }
}

/// Law: each pixel of the overlay takes four bytes, row by row, and only depends on its own place.
pub proof fn lemma_overlay_pixels_stand_in_rows(w: int, h: int, bg: Seq<u8>, n: nat, x: int, y: int)
    requires
        0 <= x < w,
        0 <= y,
        y * w + x < n,
    ensures
        pill_pixels_up_to(w, h, bg, n).len() == 4 * n,
        pill_pixels_up_to(w, h, bg, n).subrange(4 * (y * w + x), 4 * (y * w + x) + 4) == ({
            let d2 = reach(w, h, round_ends(w, h, h), 2 * x + 1, 2 * y + 1);
            let r = round_ends(w, h, h);
            seq![
                shade(bg[2] as int, r, d2) as u8,
                shade(bg[1] as int, r, d2) as u8,
                shade(bg[0] as int, r, d2) as u8,
                shade(255, r, d2) as u8,
            ]
        }),
{
    let p = y * w + x;
    assert(0 <= p) by (nonlinear_arith)
        requires
            p == y * w + x,
            0 <= x < w,
            0 <= y,
    ;
    vstd::arithmetic::div_mod::lemma_fundamental_div_mod_converse(p, w, y, x);
    lemma_pixel_place(w, h, bg, n, p);
}

/// A pixel stands where it belongs.
proof fn lemma_pixel_place(w: int, h: int, bg: Seq<u8>, n: nat, p: int)
    requires
        0 <= p < n,
    ensures
        pill_pixels_up_to(w, h, bg, n).len() == 4 * n,
        pill_pixels_up_to(w, h, bg, n).subrange(4 * p, 4 * p + 4) == pill_pixel(w, h, bg, p),
    decreases n,
{
    let before = pill_pixels_up_to(w, h, bg, (n - 1) as nat);
    let all = pill_pixels_up_to(w, h, bg, n);
    lemma_pixels_len(w, h, bg, (n - 1) as nat);
    if p < n - 1 {
        lemma_pixel_place(w, h, bg, (n - 1) as nat, p);
        assert(all.subrange(4 * p, 4 * p + 4) =~= before.subrange(4 * p, 4 * p + 4));
    } else {
        assert(all.subrange(4 * p, 4 * p + 4) =~= pill_pixel(w, h, bg, p));
    }
}

/// Each pixel takes four bytes.
proof fn lemma_pixels_len(w: int, h: int, bg: Seq<u8>, n: nat)
    ensures
        pill_pixels_up_to(w, h, bg, n).len() == 4 * n,
    decreases n,
{
    if n > 0 {
        lemma_pixels_len(w, h, bg, (n - 1) as nat);
    }
}

/// Law: an icon's red and blue change places, pixel by pixel, and green and alpha stay.
pub proof fn lemma_red_and_blue_change_places(rgba: Seq<u8>, p: int)
    requires
        0 <= p < rgba.len() / 4,
    ensures
        swapped(rgba, 4 * p) == rgba[4 * p + 2],
        swapped(rgba, 4 * p + 1) == rgba[4 * p + 1],
        swapped(rgba, 4 * p + 2) == rgba[4 * p],
        swapped(rgba, 4 * p + 3) == rgba[4 * p + 3],
{
}

/// Law: two clicks on the pause item leave it as it was, and each tells the engine the other state; no
/// other item changes what the shell remembers.
pub proof fn lemma_pausing_twice_is_none(shell: ShellView, id: Seq<char>)
    ensures
        ({
            let (once, first) = clicked(shell, id);
            let (twice, second) = clicked(once, id);
            &&& twice == shell
            &&& action_of(id) == Some(MenuAction::TogglePause) ==> first == ShellAction::Pause(
                !shell.paused,
            ) && second == ShellAction::Pause(shell.paused) && once.paused == !shell.paused
            &&& action_of(id) != Some(MenuAction::TogglePause) ==> once == shell
            &&& action_of(id) == Some(MenuAction::ToggleAutostart) ==> first
                == ShellAction::SetAutostart(!shell.autostart_enabled)
        }),
{
}

/// Law: the shell ends where anything asks for it, and only there. It starts again only where that was
/// asked for and quitting was not; and the engine is told unless it has ended by itself.
pub proof fn lemma_how_the_shell_ends(quit: bool, restart: bool, finished: bool)
    ensures
        round_end(quit, restart, finished) is Some <==> quit || restart || finished,
        round_end(quit, restart, finished) matches Some(end) ==> (end.outcome
            == ShellOutcome::Restart <==> restart && !quit),
        round_end(quit, restart, finished) matches Some(end) ==> (end.tell_engine <==> quit
            || restart),
{
}

/// Law: the tooltip of a state that records is that of the state, with a word more.
pub proof fn lemma_tooltip_says_that_it_records(state: TrayState)
    ensures
        tooltip_text(state, true) == tooltip_text(state, false) + " · recording"@,
{
    reveal_strlit("");
    assert(tooltip_text(state, true) =~= tooltip_text(state, false) + " · recording"@);
}

/// Law: a window opens with the size that was kept, but no smaller than 440 by 340, and as large as the
/// screen where it was so. Where no place was kept it opens at 560 by 440, anywhere.
pub proof fn lemma_window_opens_as_it_was(saved: WindowState, screen: Option<VirtualScreen>)
    ensures
        ({
            let o = opening_of(Some(saved), screen);
            &&& o.width >= 440 && o.height >= 340
            &&& saved.width >= 440 ==> o.width == saved.width
            &&& saved.height >= 340 ==> o.height == saved.height
            &&& saved.width < 440 ==> o.width == 440
            &&& saved.height < 340 ==> o.height == 340
            &&& o.maximized == saved.maximized
            &&& o.at is Some <==> saved.x is Some && saved.y is Some
        }),
        ({
            let o = opening_of(None, screen);
            o.width == 560 && o.height == 440 && o.at is None && !o.maximized
        }),
{
}

/// Law: a window that fits the screen opens on it whole, and where it was if it was there.
pub proof fn lemma_window_opens_on_the_screen(saved: WindowState, s: VirtualScreen, x: i64, y: i64)
    requires
        saved.x == Some(x),
        saved.y == Some(y),
        0 < s.width,
        0 < s.height,
        440 <= saved.width <= s.width,
        340 <= saved.height <= s.height,
    ensures
        ({
            let o = opening_of(Some(saved), Some(s));
            &&& o.at matches Some((left, top)) && s.x <= left && left + saved.width <= s.x + s.width
                && s.y <= top && top + saved.height <= s.y + s.height
            &&& s.x <= x && x + saved.width <= s.x + s.width && s.y <= y && y + saved.height <= s.y
                + s.height ==> o.at == Some((x, y))
        }),
{
}

/// Law: what a click on the tray does depends on the low half of its event alone: on a notice it opens
/// the folder, with either button it shows the menu, and nothing else does anything.
pub proof fn lemma_clicks_by_their_low_half(high: int, low: int)
    requires
        0 <= low < 0x1_0000,
    ensures
        click_of(high * 0x1_0000 + 0x405) == TrayClick::OpenTarget,
        click_of(high * 0x1_0000 + 0x202) == TrayClick::ShowMenu,
        click_of(high * 0x1_0000 + 0x205) == TrayClick::ShowMenu,
        low != 0x405 && low != 0x202 && low != 0x205 ==> click_of(high * 0x1_0000 + low)
            == TrayClick::Nothing,
{
}

/// Law: no two items of the menu do the same, and a name that is none of theirs does nothing.
pub proof fn lemma_each_item_has_its_own_action(shell: ShellView, a: Seq<char>, b: Seq<char>)
    ensures
        action_of(a) is Some && action_of(a) == action_of(b) ==> a == b,
        action_of(a) is None ==> clicked(shell, a) == (shell, ShellAction::Nothing),
{
}

} // verus!
