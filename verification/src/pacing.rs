//! Frame pacing. Each frame runs one `start`/`wait` cycle: `start` plans a
//! sleep of the target interval minus the accumulated lag, `wait` (given the
//! cycle's measured elapsed time) adds any overrun beyond the planned sleep
//! to the lag. A frame that overran its budget so borrows against future
//! sleep time; a stream whose processing stays below the target interval
//! never accumulates lag. The caller arms the timer for the planned duration
//! and measures the elapsed time; the arithmetic here is pure.

use vstd::prelude::*;

verus! {

/// The sleep `start` plans: the target interval minus the lag, never below
/// zero.
pub open spec fn plan_sleep(delay: int, lag: int) -> int {
    if delay >= lag {
        delay - lag
    } else {
        0
    }
}

/// The lag right after `start`: the part of the lag the planned sleep could
/// not absorb.
pub open spec fn start_lag(delay: int, lag: int) -> int {
    if lag >= delay {
        lag - delay
    } else {
        0
    }
}

/// The lag after one full cycle at the given measured elapsed time,
/// saturating at the counter's width.
pub open spec fn cycle_lag(delay: int, lag: int, elapsed: int) -> int {
    let after_start = start_lag(delay, lag);
    let overrun = if elapsed >= plan_sleep(delay, lag) {
        elapsed - plan_sleep(delay, lag)
    } else {
        0
    };
    if after_start + overrun > u64::MAX {
        u64::MAX as int
    } else {
        after_start + overrun
    }
}

/// The lag after a run of cycles with the given elapsed times.
pub open spec fn run_lag(delay: int, lag: int, elapsed: Seq<int>) -> int
    decreases elapsed.len(),
{
    if elapsed.len() == 0 {
        lag
    } else {
        run_lag(delay, cycle_lag(delay, lag, elapsed[0]), elapsed.drop_first())
    }
}

/// A cycle whose processing stayed within the target interval never grows the
/// lag.
pub proof fn lemma_cycle_no_growth(delay: int, lag: int, elapsed: int)
    requires
        0 <= lag <= u64::MAX,
        0 <= elapsed <= delay,
    ensures
        cycle_lag(delay, lag, elapsed) <= lag,
        cycle_lag(delay, lag, elapsed) >= 0,
{
}

/// Over an arbitrarily long run whose every frame stays within the target
/// interval, the accumulated lag never exceeds its starting value; started at
/// zero it stays exactly zero.
pub proof fn lemma_run_lag_bounded(delay: int, lag: int, elapsed: Seq<int>)
    requires
        0 <= lag <= u64::MAX,
        forall|i: int| 0 <= i < elapsed.len() ==> 0 <= #[trigger] elapsed[i] <= delay,
    ensures
        run_lag(delay, lag, elapsed) <= lag,
        run_lag(delay, lag, elapsed) >= 0,
        lag == 0 ==> run_lag(delay, lag, elapsed) == 0,
    decreases elapsed.len(),
{
    if elapsed.len() > 0 {
        lemma_cycle_no_growth(delay, lag, elapsed[0]);
        lemma_run_lag_bounded(delay, cycle_lag(delay, lag, elapsed[0]), elapsed.drop_first());
    }
}

/// The pacing state of one stream: the target frame interval, the accumulated
/// lag, and the sleep planned for the cycle in flight.
pub struct FrameTimer {
    delay: u64,
    lag: u64,
    planned: u64,
    armed: bool,
}

impl FrameTimer {
    pub closed spec fn delay_of(self) -> u64 {
        self.delay
    }

    pub closed spec fn lag_of(self) -> u64 {
        self.lag
    }

    pub closed spec fn planned_of(self) -> u64 {
        self.planned
    }

    pub closed spec fn armed_of(self) -> bool {
        self.armed
    }

    /// A timer for a target frame interval, with no lag yet.
    pub fn new(delay_ms: u64) -> (r: FrameTimer)
        ensures
            r.delay_of() == delay_ms,
            r.lag_of() == 0,
            !r.armed_of(),
    {
        FrameTimer { delay: delay_ms, lag: 0, planned: 0, armed: false }
    }

    /// Begins a cycle: plans the remaining sleep budget (the target interval
    /// minus the lag, never negative) and discharges the absorbed part of the
    /// lag. The caller arms a timer for the returned duration.
    pub fn start(&mut self) -> (planned: u64)
        ensures
            planned as int == plan_sleep(old(self).delay_of() as int, old(self).lag_of() as int),
            final(self).lag_of() as int == start_lag(
                old(self).delay_of() as int,
                old(self).lag_of() as int,
            ),
            final(self).planned_of() == planned,
            final(self).delay_of() == old(self).delay_of(),
            final(self).armed_of(),
    {
        let planned = if self.delay >= self.lag {
            self.delay - self.lag
        } else {
            0
        };
        self.lag = if self.lag >= self.delay {
            self.lag - self.delay
        } else {
            0
        };
        self.planned = planned;
        self.armed = true;
        planned
    }

    /// Ends a cycle after the caller measured how long the whole frame took:
    /// any overrun beyond the planned sleep is added to the lag (saturating),
    /// so it borrows against the next cycles' sleep.
    pub fn wait(&mut self, elapsed_ms: u64) -> (lag: u64)
        requires
            old(self).armed_of(),
        ensures
            lag == final(self).lag_of(),
            final(self).lag_of() as int == {
                let overrun = if elapsed_ms >= old(self).planned_of() {
                    elapsed_ms as int - old(self).planned_of() as int
                } else {
                    0
                };
                if old(self).lag_of() + overrun > u64::MAX {
                    u64::MAX as int
                } else {
                    old(self).lag_of() + overrun
                }
            },
            final(self).delay_of() == old(self).delay_of(),
            !final(self).armed_of(),
    {
        let overrun = if elapsed_ms >= self.planned {
            elapsed_ms - self.planned
        } else {
            0
        };
        self.lag = if self.lag > u64::MAX - overrun {
            u64::MAX
        } else {
            self.lag + overrun
        };
        self.armed = false;
        self.lag
    }
}

} // verus!
