use prime_search::report::Report;
use prime_search::search::{Discovery, Search, SearchConfig, Status};

fn config(
    max_candidate: Option<u32>,
    prime_goal: Option<u32>,
    major_interval: u32,
    minor_interval: u32,
    header_interval: u32,
) -> SearchConfig {
    SearchConfig { max_candidate, prime_goal, major_interval, minor_interval, header_interval }
}

fn run(search: &mut Search) -> Vec<Discovery> {
    let mut found = Vec::new();
    while search.status() == Status::Running {
        if let Some(d) = search.advance() {
            found.push(d);
        }
    }
    found
}

fn sieve_below(n: usize) -> Vec<u32> {
    let mut composite = vec![false; n];
    let mut out = Vec::new();
    for i in 2..n {
        if !composite[i] {
            out.push(i as u32);
            let mut j = i * i;
            while j < n {
                composite[j] = true;
                j += i;
            }
        }
    }
    out
}

#[test]
fn bounded_search_finds_all_primes_below_200000() {
    let mut search = Search::new(config(Some(200_000), None, 1_000_000, 10_000, 50));
    let found = run(&mut search);
    assert_eq!(search.status(), Status::StoppedByCandidateLimit);
    // 17984 primes below 200000: 2, left implicit, and 17983 odd ones held.
    assert_eq!(search.session_count(), 17984);
    assert_eq!(search.prime_count(), 17983);
    let odd: Vec<u32> = sieve_below(200_000).into_iter().filter(|p| *p != 2).collect();
    assert_eq!(search.primes(), &odd);
    let minors: Vec<Report> = found
        .iter()
        .map(|d| d.report)
        .filter(|r| matches!(r, Report::Minor { .. }))
        .collect();
    assert_eq!(minors.len(), 1);
    assert_eq!(minors[0], Report::Minor { nth: 1, prime: 104729, header: false });
    assert!(found.iter().all(|d| !matches!(d.report, Report::Major { .. })));
}

#[test]
fn goal_of_ten_stops_at_31() {
    let mut search = Search::new(config(None, Some(10), 0, 0, 0));
    let found = run(&mut search);
    assert_eq!(search.status(), Status::StoppedByGoal);
    assert_eq!(search.primes(), &vec![3, 5, 7, 11, 13, 17, 19, 23, 29, 31]);
    assert_eq!(search.last_prime(), 31);
    assert_eq!(found.len(), 9);
    assert_eq!(search.prime_count(), 10);
    assert_eq!(search.session_count(), 11);
}

#[test]
fn cancellation_stops_with_true_count() {
    let mut search = Search::new(config(None, Some(1000), 0, 0, 0));
    for _ in 0..5 {
        assert!(search.advance().is_some());
    }
    search.cancel();
    assert_eq!(search.status(), Status::StoppedByCancellation);
    assert_eq!(search.prime_count(), 6);
    assert_eq!(search.session_count(), 7);
    assert_eq!(search.last_prime(), 17);
    search.cancel();
    assert_eq!(search.status(), Status::StoppedByCancellation);
}

#[test]
fn cancel_after_stop_keeps_status() {
    let mut search = Search::new(config(None, Some(2), 0, 0, 0));
    run(&mut search);
    search.cancel();
    assert_eq!(search.status(), Status::StoppedByGoal);
}

#[test]
fn zero_intervals_give_no_reports() {
    let mut search = Search::new(config(Some(100_000), None, 0, 0, 0));
    let found = run(&mut search);
    assert!(!search.starts_with_header());
    assert!(found.iter().all(|d| d.report == Report::Quiet));
    assert_eq!(found.len() + 1, 9591);
}

#[test]
fn zero_header_interval_gives_no_header() {
    let mut search = Search::new(config(Some(10_000), None, 0, 10, 0));
    let found = run(&mut search);
    assert!(!search.starts_with_header());
    let rows = found.iter().filter(|d| matches!(d.report, Report::Minor { .. })).count();
    assert_eq!(rows, 122);
    assert!(found.iter().all(|d| !matches!(d.report, Report::Minor { header: true, .. })));
}

#[test]
fn major_report_takes_priority_in_a_run() {
    // Counting 2, the 10th prime is 29 and the 20th is 71.
    let mut search = Search::new(config(Some(100), None, 10, 5, 1));
    let found = run(&mut search);
    assert!(search.starts_with_header());
    let reports: Vec<(u32, Report)> =
        found.iter().filter(|d| d.report != Report::Quiet).map(|d| (d.prime, d.report)).collect();
    assert_eq!(
        reports,
        vec![
            (11, Report::Minor { nth: 1, prime: 11, header: false }),
            (29, Report::Major { prime: 29 }),
            (47, Report::Minor { nth: 3, prime: 47, header: true }),
            (71, Report::Major { prime: 71 }),
            (97, Report::Minor { nth: 5, prime: 97, header: true }),
        ]
    );
}

#[test]
fn max_candidate_below_five_finds_nothing() {
    let mut search = Search::new(config(Some(5), None, 0, 0, 0));
    assert!(search.advance().is_none());
    assert_eq!(search.status(), Status::StoppedByCandidateLimit);
    assert_eq!(search.primes(), &vec![3]);
    assert_eq!(search.config().max_candidate, Some(5));
}

#[test]
fn max_candidate_is_exclusive() {
    let mut search = Search::new(config(Some(7), None, 0, 0, 0));
    let found = run(&mut search);
    assert_eq!(found.len(), 1);
    assert_eq!(search.primes(), &vec![3, 5]);
}
