//! The generator of flashes and clicks: what it is asked for, when it flashes, and how a click is
//! put into the sound.

use vstd::prelude::*;

use crate::cli::args::texts;
use crate::text::{parse_number, parsed_number, same_text};

verus! {

/// What the generator is asked for: how long it runs, how often it flashes, and for how long.
#[derive(Debug, Clone, Copy, PartialEq, Eq, Structural)]
pub struct FlashArgs {
    pub seconds: u64,
    pub interval_ms: u64,
    pub flash_ms: u64,
}

/// A number, or else what was there.
pub open spec fn number_or(value: Option<Seq<char>>, before: u64) -> u64 {
    match value {
        Some(s) => match parsed_number(s, u64::MAX as int) {
            Some(n) => n as u64,
            None => before,
        },
        None => before,
    }
}

/// What is asked for after one more option, if it is one. A value that is no number is passed over.
pub open spec fn flash_option(a: FlashArgs, name: Seq<char>, value: Option<Seq<char>>) -> Option<
    FlashArgs,
> {
    if name == "--seconds"@ {
        Some(FlashArgs { seconds: number_or(value, a.seconds), ..a })
    } else if name == "--interval-ms"@ {
        Some(FlashArgs { interval_ms: number_or(value, a.interval_ms), ..a })
    } else if name == "--flash-ms"@ {
        Some(FlashArgs { flash_ms: number_or(value, a.flash_ms), ..a })
    } else {
        None
    }
}

/// What the arguments from a place on ask for, or the first that is no option.
pub open spec fn flash_from(args: Seq<Seq<char>>, i: int, a: FlashArgs) -> Result<
    FlashArgs,
    Seq<char>,
>
    decreases args.len() + 1 - i,
{
    if i < 0 || i >= args.len() {
        Ok(a)
    } else {
        let value = if i + 1 < args.len() {
            Some(args[i + 1])
        } else {
            None
        };
        match flash_option(a, args[i], value) {
            Some(next) => flash_from(args, i + 2, next),
            None => Err(args[i]),
        }
    }
}

/// What is asked for where nothing in particular is.
pub open spec fn usual_flash() -> FlashArgs {
    FlashArgs { seconds: 35, interval_ms: 2000, flash_ms: 16 }
}

/// The number at a place, or else what was there.
fn number_at(args: &[String], i: usize, before: u64) -> (n: u64)
    ensures
        n == number_or(
            if i < args@.len() {
                Some(args@[i as int]@)
            } else {
                None
            },
            before,
        ),
{
    if i < args.len() {
        match parse_number(args[i].as_str(), u64::MAX) {
            Some(n) => n,
            None => before,
        }
    } else {
        before
    }
}

/// What the generator is asked for, or the first argument that is no option.
pub fn parse_flash(args: &[String]) -> (r: Result<FlashArgs, String>)
    ensures
        ({
            let meant = flash_from(texts(args@), 0, usual_flash());
            match r {
                Ok(a) => meant == Ok::<FlashArgs, Seq<char>>(a),
                Err(bad) => meant == Err::<FlashArgs, Seq<char>>(bad@),
            }
        }),
{
    let ghost all = texts(args@);
    let mut a: FlashArgs = FlashArgs { seconds: 35, interval_ms: 2000, flash_ms: 16 };
    let n: usize = args.len();
    let mut i: usize = 0;
    while i < n
        invariant
            i <= n + 1,
            n == args@.len(),
            n == all.len(),
            all == texts(args@),
            flash_from(all, 0, usual_flash()) == flash_from(all, i as int, a),
        decreases n + 1 - i,
    {
        assert(all[i as int] == args@[i as int]@);
        assert(i + 1 < n ==> all[i + 1] == args@[i + 1]@);
        let name: &str = args[i].as_str();
        if same_text(name, "--seconds") {
            a.seconds = number_at(args, i + 1, a.seconds);
        } else if same_text(name, "--interval-ms") {
            a.interval_ms = number_at(args, i + 1, a.interval_ms);
        } else if same_text(name, "--flash-ms") {
            a.flash_ms = number_at(args, i + 1, a.flash_ms);
        } else {
            return Err(args[i].clone());
        }
        if i + 1 == n {
            assert(flash_from(all, i + 2, a) == Ok::<FlashArgs, Seq<char>>(a));
            return Ok(a);
        }
        i = i + 2;
    }
    Ok(a)
}

/// When the generator flashes next, and since when it does now. Times are in microseconds from the
/// start.
#[derive(Debug, Clone, Copy, PartialEq, Eq, Structural)]
pub struct Schedule {
    pub interval: u64,
    pub flash: u64,
    pub next: u64,
    pub lit_since: Option<u64>,
    /// How often it flashed.
    pub events: u64,
}

/// Whether a flash is due: its time has come, and none is shown.
pub open spec fn is_due(s: Schedule, now: u64) -> bool {
    s.lit_since is None && now >= s.next
}

/// The schedule after a flash was shown, at the time at which it was on the screen.
pub open spec fn lit(s: Schedule, shown: u64) -> Schedule {
    Schedule {
        next: (s.next + s.interval) as u64,
        lit_since: Some(shown),
        events: (s.events + 1) as u64,
        ..s
    }
}

/// Whether a flash was shown for long enough.
pub open spec fn is_over(s: Schedule, now: u64) -> bool {
    s.lit_since matches Some(t) && now - t >= s.flash
}

impl Schedule {
    /// A schedule whose first flash comes after an interval.
    pub fn new(args: FlashArgs) -> (s: Self)
        requires
            args.interval_ms * 1000 <= u64::MAX,
            args.flash_ms * 1000 <= u64::MAX,
        ensures
            s == (Schedule {
                interval: (args.interval_ms * 1000) as u64,
                flash: (args.flash_ms * 1000) as u64,
                next: (args.interval_ms * 1000) as u64,
                lit_since: None,
                events: 0,
            }),
    {
        Schedule {
            interval: args.interval_ms * 1000,
            flash: args.flash_ms * 1000,
            next: args.interval_ms * 1000,
            lit_since: None,
            events: 0,
        }
    }

    /// Whether to show white and click now.
    pub fn due(&self, now: u64) -> (b: bool)
        ensures
            b == is_due(*self, now),
    {
        self.lit_since.is_none() && now >= self.next
    }

    /// Take in that white is on the screen.
    pub fn light(&mut self, shown: u64)
        requires
            old(self).next + old(self).interval <= u64::MAX,
            old(self).events < u64::MAX,
        ensures
            *final(self) == lit(*old(self), shown),
    {
        self.lit_since = Some(shown);
        self.next = self.next + self.interval;
        self.events = self.events + 1;
    }

    /// Whether to show black again now. The flash is over then.
    pub fn darken(&mut self, now: u64) -> (dark: bool)
        ensures
            dark == is_over(*old(self), now),
            *final(self) == if dark {
                Schedule { lit_since: None, ..*old(self) }
            } else {
                *old(self)
            },
    {
        match self.lit_since {
            Some(t) => {
                if now >= t && now - t >= self.flash {
                    self.lit_since = None;
                    return true;
                }
                false
            },
            None => false,
        }
    }
}

/// Law: flash times do not slip: a flash that begins late does not put off the ones after it.
/// After `n` flashes the next is due at the start of interval `n + 1`.
pub proof fn lemma_flashes_keep_their_times(s: Schedule, shown: u64)
    requires
        s.next == s.interval * (s.events + 1),
        s.next + s.interval <= u64::MAX,
        s.events < u64::MAX,
    ensures
        ({
            let after = lit(s, shown);
            after.next == after.interval * (after.events + 1)
        }),
{
    let i = s.interval as int;
    let n = s.events as int;
    assert(i * (n + 1) + i == i * (n + 2)) by (nonlinear_arith);
}

/// What of a click goes into the next buffer: how many frames, and where the click goes on, if it
/// does.
pub open spec fn splice_of(pos: int, click: int, room: int) -> (int, Option<int>) {
    let take = if click - pos < room {
        click - pos
    } else {
        room
    };
    (
        take,
        if pos + take < click {
            Some(pos + take)
        } else {
            None
        },
    )
}

/// What of a click goes into the next buffer.
pub fn splice(pos: usize, click: usize, room: usize) -> (r: (usize, Option<usize>))
    requires
        pos <= click,
    ensures
        r.0 == splice_of(pos as int, click as int, room as int).0,
        r.1 is Some <==> splice_of(pos as int, click as int, room as int).1 is Some,
        r.1 matches Some(p) ==> splice_of(pos as int, click as int, room as int).1 == Some(
            p as int,
        ),
{
    let take: usize = if click - pos < room {
        click - pos
    } else {
        room
    };
    if pos + take < click {
        (take, Some(pos + take))
    } else {
        (take, None)
    }
}

} // verus!
