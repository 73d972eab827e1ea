//! The session's three stopwatches: one for the whole run, one per major
//! period and one per table row.

use crate::report::{clamped_ms, lap_of, lap_summary, lap_time, lap_time_of, Lap, LapTime};
use crate::search::Search;
use stopwatch::Stopwatch;
use vstd::prelude::*;

verus! {

/// The stopwatch of the `stopwatch` crate, carried through opaquely.
#[verifier::external_type_specification]
#[verifier::external_body]
pub struct ExStopwatch(Stopwatch);

/// Relies on `stopwatch::Stopwatch::start_new`: a stopwatch started now.
pub assume_specification[ Stopwatch::start_new ]() -> Stopwatch;

/// Relies on `stopwatch::Stopwatch::restart`: zeroes the stopwatch and starts
/// it again.
pub assume_specification[ Stopwatch::restart ](sw: &mut Stopwatch);

/// Relies on `stopwatch::Stopwatch::elapsed_ms`: the time since the last
/// (re)start in milliseconds; nothing is promised of a reading of the clock.
pub assume_specification[ Stopwatch::elapsed_ms ](sw: &Stopwatch) -> i64;

/// The timers of one search session.
pub struct Timers {
    session: Stopwatch,
    major: Stopwatch,
    minor: Stopwatch,
}

impl Timers {
    /// Starts all three timers.
    pub fn start() -> (r: Timers) {
        Timers {
            session: Stopwatch::start_new(),
            major: Stopwatch::start_new(),
            minor: Stopwatch::start_new(),
        }
    }

    /// The time of the table row just completed, shown as a row shows it;
    /// restarts the row timer.
    pub fn minor_lap(&mut self) -> (r: LapTime)
        ensures
            exists|ms: u64| r == lap_time_of(ms),
    {
        let ms = clamped_ms(self.minor.elapsed_ms());
        self.minor.restart();
        lap_time(ms)
    }

    /// The figures of the major period just completed, `interval` primes
    /// long; restarts both the major and the row timer.
    pub fn major_lap(&mut self, interval: u32) -> (r: Lap)
        ensures
            exists|ms: u64| r == lap_of(interval as int, ms),
    {
        let ms = clamped_ms(self.major.elapsed_ms());
        self.major.restart();
        self.minor.restart();
        lap_summary(interval, ms)
    }

    /// The figures of the whole session: the primes `search` has found (2
    /// included) over the time since the start.
    pub fn session_summary(&self, search: &Search) -> (r: Lap)
        requires
            search.wf(),
        ensures
            exists|ms: u64| r == #[trigger] lap_of(search.primes_view().len() + 1 as int, ms),
    {
        let ms = clamped_ms(self.session.elapsed_ms());
        let count = search.session_count();
        lap_summary(count, ms)
    }
}

} // verus!
