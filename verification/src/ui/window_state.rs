//! Where the window's place on the screen is kept.

use vstd::prelude::*;

use crate::constants::PRODUCT_NAME;
use crate::logging::{data_dir, join_path, path_joined};

verus! {

/// The path of the state file: beside the log folder.
pub open spec fn state_file(local_app_data: Option<Seq<char>>) -> Seq<char> {
    match local_app_data {
        Some(local) => path_joined(data_dir(local), "ui-state.toml"@),
        None => "ui-state.toml"@,
    }
}

/// A local data folder, if there is one.
pub open spec fn folder(local_app_data: Option<&str>) -> Option<Seq<char>> {
    match local_app_data {
        Some(local) => Some(local@),
        None => None,
    }
}

/// The path of the state file: beside the log folder.
pub fn state_path(local_app_data: Option<&str>) -> (path: String)
    ensures
        path@ == state_file(folder(local_app_data)),
{
    match local_app_data {
        Some(local) => {
            let dir: String = join_path(local, PRODUCT_NAME);
            join_path(dir.as_str(), "ui-state.toml")
        },
        None => String::from_str("ui-state.toml"),
    }
}

/// The line that says where the window's place is kept.
pub fn log_location(local_app_data: Option<&str>) -> (line: String)
    ensures
        line@ == "window geometry persisted here (A4) path="@ + state_file(folder(local_app_data))
            + " product="@ + PRODUCT_NAME@,
{
    let mut line: String = String::from_str("window geometry persisted here (A4) path=");
    let path: String = state_path(local_app_data);
    line.append(path.as_str());
    line.append(" product=");
    line.append(PRODUCT_NAME);
    line
}

/// The rectangle around all monitors, in pixels.
#[derive(Debug, Clone, Copy, PartialEq, Eq, Structural)]
pub struct VirtualScreen {
    pub x: i32,
    pub y: i32,
    pub width: i32,
    pub height: i32,
}

/// The screen with some measures, if they are those of one.
pub fn virtual_screen_rect(x: i32, y: i32, width: i32, height: i32) -> (r: Option<VirtualScreen>)
    ensures
        r == if width <= 0 || height <= 0 {
            None
        } else {
            Some(VirtualScreen { x, y, width, height })
        },
{
    if width <= 0 || height <= 0 {
        None
    } else {
        Some(VirtualScreen { x, y, width, height })
    }
}

/// A place along one side of the screen: no further than a window of a size has room for, and not
/// before the screen begins.
pub open spec fn clamped(at: int, size: int, from: int, room: int) -> int {
    let last = if from + room - size < from {
        from
    } else {
        from + room - size
    };
    if at < from {
        from
    } else if at > last {
        last
    } else {
        at
    }
}

/// A place along one side of the screen.
fn clamp_side(at: i64, size: i64, from: i64, room: i64) -> (r: i64)
    requires
        0 <= size <= 0x1_0000_0000,
        -0x1_0000_0000 <= from <= 0x1_0000_0000,
        0 <= room <= 0x1_0000_0000,
    ensures
        r == clamped(at as int, size as int, from as int, room as int),
{
    let end: i64 = from + room - size;
    let last: i64 = if end < from {
        from
    } else {
        end
    };
    if at < from {
        from
    } else if at > last {
        last
    } else {
        at
    }
}

/// A window's upper left corner, moved onto the screen that is there now: a monitor may be gone.
/// Where nothing is known of the screen, the corner stays.
pub fn clamp_to_virtual_screen(
    screen: Option<VirtualScreen>,
    x: i64,
    y: i64,
    width: u32,
    height: u32,
) -> (r: (i64, i64))
    requires
        screen matches Some(s) ==> s.width > 0 && s.height > 0,
    ensures
        match screen {
            Some(s) => r.0 == clamped(x as int, width as int, s.x as int, s.width as int) && r.1
                == clamped(y as int, height as int, s.y as int, s.height as int),
            None => r == (x, y),
        },
{
    match screen {
        Some(s) => (
            clamp_side(x, width as i64, s.x as i64, s.width as i64),
            clamp_side(y, height as i64, s.y as i64, s.height as i64),
        ),
        None => (x, y),
    }
}

/// Law: a window that has room on the screen is moved onto it whole, and not at all where it is;
/// one that has none begins where the screen does.
pub proof fn lemma_window_is_on_screen(at: int, size: int, from: int, room: int)
    requires
        0 <= size,
        0 < room,
    ensures
        size <= room ==> from <= clamped(at, size, from, room) && clamped(at, size, from, room)
            + size <= from + room,
        from <= at && at + size <= from + room ==> clamped(at, size, from, room) == at,
        size > room ==> clamped(at, size, from, room) == from,
{
}

/// The window's size where none was kept.
pub const WINDOW_SIZE: (u32, u32) = (560, 440);

/// The window's least size.
pub const MIN_WINDOW_SIZE: (u32, u32) = (440, 340);

/// The window's place as it was kept, in pixels.
#[derive(Debug, Clone, Copy, PartialEq, Eq)]
pub struct WindowState {
    pub width: u32,
    pub height: u32,
    pub x: Option<i64>,
    pub y: Option<i64>,
    pub maximized: bool,
}

/// How the window opens.
#[derive(Debug, Clone, Copy, PartialEq, Eq)]
pub struct Opening {
    pub width: u32,
    pub height: u32,
    /// Where, or anywhere.
    pub at: Option<(i64, i64)>,
    pub maximized: bool,
}

/// The larger of two sizes.
pub open spec fn at_least(size: u32, least: u32) -> u32 {
    if size < least {
        least
    } else {
        size
    }
}

/// How a window of a kept place opens: no smaller than it can be, and on the screen that is there
/// now.
pub open spec fn opening_of(saved: Option<WindowState>, screen: Option<VirtualScreen>) -> Opening {
    match saved {
        None => Opening {
            width: WINDOW_SIZE.0,
            height: WINDOW_SIZE.1,
            at: None,
            maximized: false,
        },
        Some(place) => {
            let width = at_least(place.width, MIN_WINDOW_SIZE.0);
            let height = at_least(place.height, MIN_WINDOW_SIZE.1);
            Opening {
                width,
                height,
                at: match (place.x, place.y) {
                    (Some(x), Some(y)) => Some(
                        match screen {
                            Some(s) => (
                                clamped(x as int, width as int, s.x as int, s.width as int) as i64,
                                clamped(y as int, height as int, s.y as int, s.height as int) as i64,
                            ),
                            None => (x, y),
                        },
                    ),
                    _ => None,
                },
                maximized: place.maximized,
            }
        },
    }
}

/// How the window opens.
pub fn opening(saved: Option<WindowState>, screen: Option<VirtualScreen>) -> (o: Opening)
    requires
        screen matches Some(s) ==> s.width > 0 && s.height > 0,
    ensures
        o == opening_of(saved, screen),
{
    match saved {
        None => Opening {
            width: WINDOW_SIZE.0,
            height: WINDOW_SIZE.1,
            at: None,
            maximized: false,
        },
        Some(place) => {
            let width: u32 = if place.width < MIN_WINDOW_SIZE.0 {
                MIN_WINDOW_SIZE.0
            } else {
                place.width
            };
            let height: u32 = if place.height < MIN_WINDOW_SIZE.1 {
                MIN_WINDOW_SIZE.1
            } else {
                place.height
            };
            let at: Option<(i64, i64)> = match (place.x, place.y) {
                (Some(x), Some(y)) => Some(clamp_to_virtual_screen(screen, x, y, width, height)),
                _ => None,
            };
            Opening { width, height, at, maximized: place.maximized }
        },
    }
}

} // verus!
