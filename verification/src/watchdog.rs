//! Whether the pipeline keeps up: capture, then encode, then mux.

use vstd::prelude::*;

use crate::constants::watchdog::FRAMES_DIVERGENCE_MAX;

verus! {

/// How far each stage has come, in frames.
#[derive(Debug, Clone, Copy)]
pub struct PipelineStats {
    /// Frames that were captured.
    pub captured: u64,
    /// Packets that were encoded.
    pub encoded: u64,
    /// Packets that were muxed.
    pub muxed: u64,
}

/// Whether `behind` lags behind `ahead` by more than the threshold.
pub open spec fn lags(ahead: u64, behind: u64) -> bool {
    ahead - behind > FRAMES_DIVERGENCE_MAX
}

/// Which stages have fallen behind the one before.
#[derive(Debug, Clone, Copy, PartialEq, Eq, Structural)]
pub struct Divergence {
    /// Encode behind capture.
    pub encode: bool,
    /// Mux behind encode.
    pub mux: bool,
}

impl PipelineStats {
    /// Counters at zero.
    pub fn new() -> (stats: Self)
        ensures
            stats.captured == 0,
            stats.encoded == 0,
            stats.muxed == 0,
    {
        PipelineStats { captured: 0, encoded: 0, muxed: 0 }
    }

    /// The counts: captured, encoded, muxed.
    pub fn snapshot(&self) -> (r: (u64, u64, u64))
        ensures
            r == (self.captured, self.encoded, self.muxed),
    {
        (self.captured, self.encoded, self.muxed)
    }

    /// Which stages deserve a warning: those that have fallen behind the one before by more than
    /// the threshold.
    pub fn check_divergence(&self) -> (r: Divergence)
        ensures
            r.encode == lags(self.captured, self.encoded),
            r.mux == lags(self.encoded, self.muxed),
    {
        let (captured, encoded, muxed) = self.snapshot();
        let threshold: u64 = FRAMES_DIVERGENCE_MAX as u64;
        Divergence {
            encode: captured.saturating_sub(encoded) > threshold,
            mux: encoded.saturating_sub(muxed) > threshold,
        }
    }

    /// Whether any stage has fallen behind.
    pub fn is_diverged(&self) -> (b: bool)
        ensures
            b == (lags(self.captured, self.encoded) || lags(self.encoded, self.muxed)),
    {
        let r: Divergence = self.check_divergence();
        r.encode || r.mux
    }
}

/// The health of the pipeline.
#[derive(Debug, Clone, Copy, PartialEq, Eq, Structural)]
pub enum WatchdogState {
    /// The pipeline keeps up.
    Healthy,
    /// A stage has fallen behind.
    Warning,
}

/// Turns the divergence flag into transitions, so that a change is reported once.
#[derive(Debug)]
pub struct Watchdog {
    warned: bool,
}

/// What is reported of a flag: a change, and nothing else.
pub open spec fn observed(warned: bool, diverged: bool) -> Option<WatchdogState> {
    if warned == diverged {
        None
    } else if diverged {
        Some(WatchdogState::Warning)
    } else {
        Some(WatchdogState::Healthy)
    }
}

impl Watchdog {
    /// Whether the last report was a warning.
    pub closed spec fn is_warned(&self) -> bool {
        self.warned
    }

    /// A watchdog that has reported nothing.
    pub fn new() -> (wd: Self)
        ensures
            !wd.is_warned(),
    {
        Watchdog { warned: false }
    }

    /// Take in the current flag. Gives the new state on a change, and nothing otherwise.
    pub fn observe(&mut self, diverged: bool) -> (r: Option<WatchdogState>)
        ensures
            final(self).is_warned() == diverged,
            r == observed(old(self).is_warned(), diverged),
    {
        if self.warned == diverged {
            None
        } else {
            self.warned = diverged;
            if diverged {
                Some(WatchdogState::Warning)
            } else {
                Some(WatchdogState::Healthy)
            }
        }
    }
}

/// What a watchdog reports of flags that it takes in one after the other, and whether it has warned
/// after them.
pub open spec fn reported(warned: bool, flags: Seq<bool>) -> (Seq<WatchdogState>, bool)
    decreases flags.len(),
{
    if flags.len() == 0 {
        (Seq::empty(), warned)
    } else {
        let (before, last) = reported(warned, flags.drop_last());
        let flag = flags.last();
        (
            match observed(last, flag) {
                Some(state) => before.push(state),
                None => before,
            },
            flag,
        )
    }
}

/// Law: reports alternate. Whatever flags come, no state is reported twice in a row, the first report
/// is a warning, and the last one says how things are.
pub proof fn lemma_reports_alternate(flags: Seq<bool>)
    ensures
        ({
            let (reports, warned) = reported(false, flags);
            &&& forall|i: int|
                0 <= i < reports.len() ==> (#[trigger] reports[i] == WatchdogState::Warning <==> i
                    % 2 == 0)
            &&& warned == (reports.len() % 2 == 1)
            &&& flags.len() > 0 ==> warned == flags.last()
        }),
    decreases flags.len(),
{
    if flags.len() > 0 {
        lemma_reports_alternate(flags.drop_last());
    }
}

/// Law: a stage may be 120 frames behind the one before, and no more; being ahead is no fault.
pub proof fn lemma_how_far_a_stage_may_lag(ahead: u64, behind: u64)
    ensures
        ahead <= behind + 120 ==> !lags(ahead, behind),
        ahead > behind + 120 ==> lags(ahead, behind),
{
}

/// Law: each change of the flag is reported, once, when it comes: what is reported is as often as the
/// flag differs from the one before, the first from no warning.
pub proof fn lemma_each_change_is_reported(flags: Seq<bool>, flag: bool)
    ensures
        ({
            let before = flags.len() > 0 && flags.last();
            let (was, _) = reported(false, flags);
            let (now, _) = reported(false, flags.push(flag));
            &&& flag == before ==> now == was
            &&& flag && !before ==> now == was.push(WatchdogState::Warning)
            &&& !flag && before ==> now == was.push(WatchdogState::Healthy)
        }),
{
    lemma_reports_alternate(flags);
    assert(flags.push(flag).drop_last() =~= flags);
}

} // verus!
