use prime_search::num_lang::{count_digits, get_name};
use prime_search::report::{
    clamped_ms, decide_report, decimal_parts, lap_summary, lap_time, throughput_milli, Intervals,
    Lap, LapTime, Report,
};
use prime_search::timing::Timers;

#[test]
fn major_wins_when_both_tiers_are_due() {
    let iv = Intervals { major: 10, minor: 5, header: 3 };
    assert_eq!(decide_report(20, 71, 1, iv), (Report::Major { prime: 71 }, 4));
    assert_eq!(decide_report(15, 47, 4, iv), (Report::Minor { nth: 3, prime: 47, header: true }, 2));
    assert_eq!(decide_report(15, 47, 1, iv), (Report::Minor { nth: 3, prime: 47, header: false }, 2));
    assert_eq!(decide_report(7, 17, 1, iv), (Report::Quiet, 1));
}

#[test]
fn zero_intervals_never_report() {
    let iv = Intervals { major: 0, minor: 0, header: 0 };
    for count in 0..1000u32 {
        assert_eq!(decide_report(count, 3, 0, iv).0, Report::Quiet);
    }
    let rows = Intervals { major: 0, minor: 1, header: 0 };
    let mut counter: u64 = 0;
    for count in 1..100u32 {
        let (r, next) = decide_report(count, 3, counter, rows);
        assert!(!matches!(r, Report::Minor { header: true, .. }));
        counter = next;
    }
}

#[test]
fn throughput_is_count_over_seconds() {
    assert_eq!(throughput_milli(17984, 2000), Some(8_992_000));
    assert_eq!(throughput_milli(10, 3), Some(3_333_333));
    assert_eq!(throughput_milli(5, 0), None);
    assert_eq!(lap_summary(1000, 250), Lap { elapsed_ms: 250, rate_milli: Some(4_000_000) });
    assert_eq!(lap_summary(1000, 0), Lap { elapsed_ms: 0, rate_milli: None });
    let rate = throughput_milli(12345, 6789).unwrap() as f64 / 1000.0;
    assert!((rate - 12345.0 / 6.789).abs() < 0.001);
}

#[test]
fn lap_times_switch_to_seconds_at_five_seconds() {
    assert_eq!(lap_time(0), LapTime::Millis(0));
    assert_eq!(lap_time(4999), LapTime::Millis(4999));
    assert_eq!(lap_time(5000), LapTime::Seconds { whole: 5, hundredths: 0 });
    assert_eq!(lap_time(12_345), LapTime::Seconds { whole: 12, hundredths: 34 });
    assert_eq!(clamped_ms(-5), 0);
    assert_eq!(clamped_ms(42), 42);
}

#[test]
fn decimal_parts_split_thousandths() {
    assert_eq!(decimal_parts(12_345, 3), (12, 345));
    assert_eq!(decimal_parts(12_345, 2), (12, 34));
    assert_eq!(decimal_parts(12_345, 1), (12, 3));
    assert_eq!(decimal_parts(12_345, 0), (12, 0));
    assert_eq!(decimal_parts(7, 3), (0, 7));
}

#[test]
fn magnitude_names() {
    assert_eq!(get_name(100), "hundred");
    assert_eq!(get_name(1000), "thousand");
    assert_eq!(get_name(10_000), "ten thousand");
    assert_eq!(get_name(100_000), "hundred thousand");
    assert_eq!(get_name(1_000_000), "million");
    assert_eq!(get_name(10_000_000), "ten million");
    assert_eq!(get_name(999_999_999), "hundred million");
    assert_eq!(get_name(u32::MAX), "billion");
    assert_eq!(get_name(0), "ERR");
    assert_eq!(get_name(99), "ERR");
    assert_eq!(count_digits(0), 1);
    assert_eq!(count_digits(u32::MAX), 10);
}

#[test]
fn fresh_timers_read_little_time() {
    let mut timers = Timers::start();
    match timers.minor_lap() {
        LapTime::Millis(ms) => assert!(ms < 5000),
        LapTime::Seconds { .. } => panic!("a fresh timer read five seconds"),
    }
    let lap = timers.major_lap(1000);
    assert!(lap.elapsed_ms < 5000);
}
