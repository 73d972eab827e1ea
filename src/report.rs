//! Which progress report a prime discovery triggers, and the figures the
//! reports print.

use vstd::prelude::*;

verus! {

/// The reporting periods of a search, each measured in primes found; zero
/// switches that tier off. `header` counts minor reports between reprints of
/// the table header.
#[derive(Clone, Copy, Debug, PartialEq, Eq, Structural)]
pub struct Intervals {
    pub major: u32,
    pub minor: u32,
    pub header: u32,
}

/// What to print after a prime discovery.
#[derive(Clone, Copy, Debug, PartialEq, Eq, Structural)]
pub enum Report {
    /// Nothing.
    Quiet,
    /// A table row: the bucket number, the prime, and (when `header` is set) a
    /// table header first.
    Minor { nth: u32, prime: u32, header: bool },
    /// A major report on the prime just found.
    Major { prime: u32 },
}

/// The major tier fires at `count` (primes found, 2 included).
pub open spec fn major_due(count: int, iv: Intervals) -> bool {
    iv.major != 0 && count % (iv.major as int) == 0
}

/// The minor tier fires at `count`.
pub open spec fn minor_due(count: int, iv: Intervals) -> bool {
    iv.minor != 0 && count % (iv.minor as int) == 0
}

/// A minor report reprints the header when the counter has passed the header
/// interval; a zero interval never reprints it.
pub open spec fn header_due(counter: int, iv: Intervals) -> bool {
    iv.header != 0 && counter > iv.header
}

/// The report for the discovery of `prime`, the `count`-th prime (2 included),
/// with the header counter at `counter`. The major tier takes priority.
pub open spec fn report_for(count: int, prime: u32, counter: int, iv: Intervals) -> Report {
    if major_due(count, iv) {
        Report::Major { prime }
    } else if minor_due(count, iv) {
        Report::Minor {
            nth: (count / (iv.minor as int)) as u32,
            prime,
            header: header_due(counter, iv),
        }
    } else {
        Report::Quiet
    }
}

/// The header counter after the discovery of the `count`-th prime: a major
/// report pushes it past the interval, so that the next minor report brings
/// the header back; a minor report counts one more row (starting again after
/// a header).
pub open spec fn counter_after(count: int, counter: int, iv: Intervals) -> int {
    if major_due(count, iv) {
        iv.header + 1
    } else if minor_due(count, iv) {
        if counter > iv.header {
            2
        } else {
            counter + 1
        }
    } else {
        counter
    }
}

/// Bound on the header counter that every discovery keeps.
pub open spec fn counter_bounded(counter: int, iv: Intervals) -> bool {
    0 <= counter <= iv.header + 2
}

/// Decides the report for the discovery of `prime` as the `count`-th prime
/// (2 included), and returns it with the next header counter.
pub fn decide_report(count: u32, prime: u32, counter: u64, iv: Intervals) -> (r: (Report, u64))
    requires
        counter_bounded(counter as int, iv),
    ensures
        r.0 == report_for(count as int, prime, counter as int, iv),
        r.1 as int == counter_after(count as int, counter as int, iv),
        counter_bounded(r.1 as int, iv),
{
    if iv.major != 0 && count % iv.major == 0 {
        (Report::Major { prime }, iv.header as u64 + 1)
    } else if iv.minor != 0 && count % iv.minor == 0 {
        let header = iv.header != 0 && counter > iv.header as u64;
        let next = if counter > iv.header as u64 {
            2
        } else {
            counter + 1
        };
        (Report::Minor { nth: count / iv.minor, prime, header }, next)
    } else {
        (Report::Quiet, counter)
    }
}

/// The two report tiers never fire together: where both periods divide the
/// count, only the major report is made.
pub proof fn lemma_major_takes_priority(count: int, prime: u32, counter: int, iv: Intervals)
    requires
        major_due(count, iv),
        minor_due(count, iv),
    ensures
        report_for(count, prime, counter, iv) == (Report::Major { prime }),
{
}

/// A tier whose interval is zero never reports, at any count: no major report
/// with a zero major interval, no minor report with a zero minor interval, and
/// no header with a zero header interval.
pub proof fn lemma_zero_interval_silences(count: int, prime: u32, counter: int, iv: Intervals)
    ensures
        iv.major == 0 ==> report_for(count, prime, counter, iv) !is Major,
        iv.minor == 0 ==> report_for(count, prime, counter, iv) !is Minor,
        iv.header == 0 ==> !(report_for(count, prime, counter, iv) matches Report::Minor {
            header: true,
            ..
        }),
{
}

/// Primes per second in thousandths, `count * 1000 / elapsed_ms` rounded
/// down, or `None` for an elapsed time of zero.
pub open spec fn rate_milli(count: int, elapsed_ms: int) -> Option<int> {
    if elapsed_ms == 0 {
        None
    } else {
        Some(count * 1_000_000 / elapsed_ms)
    }
}

/// The throughput of `count` primes in `elapsed_ms` milliseconds, in
/// thousandths of a prime per second; `None` where no time has passed.
pub fn throughput_milli(count: u32, elapsed_ms: u64) -> (r: Option<u64>)
    ensures
        r matches Some(v) ==> rate_milli(count as int, elapsed_ms as int) == Some(v as int),
        r is None <==> rate_milli(count as int, elapsed_ms as int) is None,
{
    if elapsed_ms == 0 {
        None
    } else {
        let scaled: u64 = count as u64 * 1_000_000;
        Some(scaled / elapsed_ms)
    }
}

/// A throughput is defined whenever time has passed, and it is
/// `count / seconds` to within one thousandth from below.
pub proof fn lemma_throughput_accurate(count: nat, elapsed_ms: nat)
    requires
        elapsed_ms > 0,
    ensures
        rate_milli(count as int, elapsed_ms as int) is Some,
        ({
            let v = rate_milli(count as int, elapsed_ms as int)->0;
            &&& v * elapsed_ms <= count * 1_000_000
            &&& count * 1_000_000 < (v + 1) * elapsed_ms
        }),
{
    let v = (count * 1_000_000) as int / elapsed_ms as int;
    let n = (count * 1_000_000) as int;
    let e = elapsed_ms as int;
    vstd::arithmetic::div_mod::lemma_fundamental_div_mod(n, e);
    assert(0 <= n % e < e) by {
        vstd::arithmetic::div_mod::lemma_mod_bound(n, e);
    }
    assert(v * e <= n < (v + 1) * e) by (nonlinear_arith)
        requires
            n == e * v + n % e,
            0 <= n % e < e,
    ;
}

/// How a lap time is shown in a table row, for `elapsed_ms` milliseconds.
pub open spec fn lap_time_of(elapsed_ms: u64) -> LapTime {
    if elapsed_ms < 5000 {
        LapTime::Millis(elapsed_ms)
    } else {
        LapTime::Seconds { whole: elapsed_ms / 1000, hundredths: (elapsed_ms % 1000) / 10 }
    }
}

/// How a lap time is shown in a table row.
#[derive(Clone, Copy, Debug, PartialEq, Eq, Structural)]
pub enum LapTime {
    /// In whole milliseconds (under five seconds).
    Millis(u64),
    /// In seconds and hundredths, rounded down (five seconds and more).
    Seconds { whole: u64, hundredths: u64 },
}

/// Shows `elapsed_ms` in milliseconds under five seconds, else in seconds to
/// two decimals.
pub fn lap_time(elapsed_ms: u64) -> (r: LapTime)
    ensures
        r == lap_time_of(elapsed_ms),
{
    if elapsed_ms < 5000 {
        LapTime::Millis(elapsed_ms)
    } else {
        LapTime::Seconds { whole: elapsed_ms / 1000, hundredths: (elapsed_ms % 1000) / 10 }
    }
}

/// Splits a value in thousandths into whole units and the first `places`
/// decimals (at most three), rounded down.
pub fn decimal_parts(milli: u64, places: u32) -> (r: (u64, u64))
    requires
        places <= 3,
    ensures
        r.0 == milli / 1000,
        places == 3 ==> r.1 == milli % 1000,
        places == 2 ==> r.1 == (milli % 1000) / 10,
        places == 1 ==> r.1 == (milli % 1000) / 100,
        places == 0 ==> r.1 == 0,
{
    let frac = milli % 1000;
    let shown = if places == 3 {
        frac
    } else if places == 2 {
        frac / 10
    } else if places == 1 {
        frac / 100
    } else {
        0
    };
    (milli / 1000, shown)
}

/// The figures of a timed stretch: its length and its throughput.
#[derive(Clone, Copy, Debug, PartialEq, Eq, Structural)]
pub struct Lap {
    /// Milliseconds taken.
    pub elapsed_ms: u64,
    /// Primes per second in thousandths; `None` where no time has passed.
    pub rate_milli: Option<u64>,
}

/// The figures of `count` primes found in `elapsed_ms` milliseconds.
pub open spec fn lap_of(count: int, elapsed_ms: u64) -> Lap {
    Lap {
        elapsed_ms,
        rate_milli: match rate_milli(count, elapsed_ms as int) {
            Some(v) => Some(v as u64),
            None => None,
        },
    }
}

/// Sums up a stretch in which `count` primes were found in `elapsed_ms`
/// milliseconds.
pub fn lap_summary(count: u32, elapsed_ms: u64) -> (r: Lap)
    ensures
        r == lap_of(count as int, elapsed_ms),
{
    Lap { elapsed_ms, rate_milli: throughput_milli(count, elapsed_ms) }
}

/// A stopwatch reading in milliseconds, with a negative one taken as zero.
pub open spec fn clamp_ms(v: i64) -> u64 {
    if v < 0 {
        0
    } else {
        v as u64
    }
}

/// Turns a stopwatch reading into milliseconds; a negative reading counts as
/// no time.
pub fn clamped_ms(v: i64) -> (r: u64)
    ensures
        r == clamp_ms(v),
{
    if v < 0 {
        0
    } else {
        v as u64
    }
}

} // verus!
