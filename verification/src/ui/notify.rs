//! Notices: what they say, and what a click on the tray means.

use vstd::prelude::*;

use crate::constants::PRODUCT_NAME;
use crate::text::{decimal, push_decimal};

verus! {

/// The event of a click on a notice.
pub const BALLOON_CLICK: u32 = 0x405;

/// The event of a click with the left button.
pub const LEFT_CLICK: u32 = 0x202;

/// The event of a click with the right button.
pub const RIGHT_CLICK: u32 = 0x205;

/// What a click on the tray does.
#[derive(Debug, Clone, Copy, PartialEq, Eq, Structural)]
pub enum TrayClick {
    /// Open the folder that the last notice was about.
    OpenTarget,
    /// Show the menu.
    ShowMenu,
    Nothing,
}

/// What a tray event does: its low half says what it is.
pub open spec fn click_of(event: int) -> TrayClick {
    let low = event % 0x1_0000;
    if low == BALLOON_CLICK {
        TrayClick::OpenTarget
    } else if low == LEFT_CLICK || low == RIGHT_CLICK {
        TrayClick::ShowMenu
    } else {
        TrayClick::Nothing
    }
}

/// What a tray event does.
pub fn tray_click(event: u32) -> (r: TrayClick)
    ensures
        r == click_of(event as int),
{
    let low: u32 = event % 0x1_0000;
    if low == BALLOON_CLICK {
        TrayClick::OpenTarget
    } else if low == LEFT_CLICK || low == RIGHT_CLICK {
        TrayClick::ShowMenu
    } else {
        TrayClick::Nothing
    }
}

/// A number of milliseconds in whole seconds, halves to the even one.
pub open spec fn whole_seconds(millis: int) -> int {
    let q = millis / 1000;
    let r = millis % 1000;
    if r > 500 || (r == 500 && q % 2 == 1) {
        q + 1
    } else {
        q
    }
}

/// A number of milliseconds in whole seconds.
pub fn to_whole_seconds(millis: u64) -> (secs: u64)
    ensures
        secs == whole_seconds(millis as int),
{
    let q: u64 = millis / 1000;
    let r: u64 = millis % 1000;
    if r > 500 || (r == 500 && q % 2 == 1) {
        q + 1
    } else {
        q
    }
}

/// The title of the notice of a save.
pub open spec fn toast_title(ok: bool) -> Seq<char> {
    if ok {
        PRODUCT_NAME@
    } else {
        PRODUCT_NAME@ + " — clip NOT saved"@
    }
}

/// The text of the notice of a save: how long the clip is, or why there is none.
pub open spec fn toast_body(ok: bool, millis: int, reason: Seq<char>) -> Seq<char> {
    if ok {
        "Clip saved · "@ + decimal(whole_seconds(millis)) + " s"@
    } else {
        "Clip NOT saved — "@ + reason
    }
}

/// The notice of a save: its title and its text.
pub fn save_toast(ok: bool, millis: u64, reason: &str) -> (r: (String, String))
    ensures
        r.0@ == toast_title(ok),
        r.1@ == toast_body(ok, millis as int, reason@),
{
    let mut title: String = String::from_str(PRODUCT_NAME);
    if ok {
        let mut body: String = String::from_str("Clip saved · ");
        push_decimal(&mut body, to_whole_seconds(millis));
        body.append(" s");
        (title, body)
    } else {
        title.append(" — clip NOT saved");
        let mut body: String = String::from_str("Clip NOT saved — ");
        body.append(reason);
        (title, body)
    }
}

/// The folder that a click on the notice of a save opens: the clip's, or the log's.
pub fn click_target<'a>(ok: bool, clip_dir: &'a str, log_dir: &'a str) -> (dir: &'a str)
    ensures
        dir@ == if ok {
            clip_dir@
        } else {
            log_dir@
        },
{
    if ok {
        clip_dir
    } else {
        log_dir
    }
}

/// A notice.
#[derive(Debug, Clone, PartialEq, Eq)]
pub struct Notice {
    pub title: String,
    pub body: String,
    /// Shown as a warning.
    pub error: bool,
    /// The folder that a click opens.
    pub click_dir: String,
}

/// The notice of a save: a failed one is a warning.
pub fn saved(ok: bool, millis: u64, reason: &str, click_dir: String) -> (n: Notice)
    ensures
        n.title@ == toast_title(ok),
        n.body@ == toast_body(ok, millis as int, reason@),
        n.error == !ok,
        n.click_dir@ == click_dir@,
{
    let (title, body): (String, String) = save_toast(ok, millis, reason);
    Notice { title, body, error: !ok, click_dir }
}

/// A notice that is no warning.
pub fn info(title: &str, body: &str, click_dir: String) -> (n: Notice)
    ensures
        n.title@ == title@,
        n.body@ == body@,
        !n.error,
        n.click_dir@ == click_dir@,
{
    Notice {
        title: String::from_str(title),
        body: String::from_str(body),
        error: false,
        click_dir,
    }
}

} // verus!
