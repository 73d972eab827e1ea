use prime_search::candidates::Candidates;
use prime_search::primality::{check_prime, isqrt};

fn is_prime_naive(n: u32) -> bool {
    n >= 2 && (2..n).all(|d| n % d != 0)
}

#[test]
fn trial_division_matches_naive_test_with_all_primes() {
    let mut known: Vec<u32> = vec![2, 3];
    for n in 4..3000u32 {
        assert_eq!(check_prime(n, &known), is_prime_naive(n), "n = {}", n);
        if is_prime_naive(n) {
            known.push(n);
        }
    }
}

#[test]
fn trial_division_matches_naive_test_on_odd_numbers() {
    let mut known: Vec<u32> = vec![3];
    let mut n: u32 = 5;
    while n < 5000 {
        assert_eq!(check_prime(n, &known), is_prime_naive(n), "n = {}", n);
        if is_prime_naive(n) {
            known.push(n);
        }
        n += 2;
    }
}

#[test]
fn squares_of_primes_are_rejected() {
    let known: Vec<u32> = vec![3, 5, 7, 11, 13];
    assert!(!check_prime(9, &known));
    assert!(!check_prime(25, &known));
    assert!(!check_prime(49, &known));
    assert!(!check_prime(121, &known));
    assert!(!check_prime(169, &known));
    assert!(check_prime(167, &known));
}

#[test]
fn integer_square_roots() {
    assert_eq!(isqrt(0), 0);
    assert_eq!(isqrt(1), 1);
    assert_eq!(isqrt(3), 1);
    assert_eq!(isqrt(4), 2);
    assert_eq!(isqrt(99), 9);
    assert_eq!(isqrt(100), 10);
    assert_eq!(isqrt(4_294_836_225), 65535);
    assert_eq!(isqrt(4_294_836_224), 65534);
    assert_eq!(isqrt(u32::MAX), 65535);
}

#[test]
fn candidates_are_odd_from_five_below_the_bound() {
    let mut c = Candidates::new(Some(11));
    assert_eq!(c.next_candidate(), Some(5));
    assert_eq!(c.next_candidate(), Some(7));
    assert_eq!(c.next_candidate(), Some(9));
    assert_eq!(c.next_candidate(), None);
    assert_eq!(c.next_candidate(), None);
}

#[test]
fn candidates_without_bound_start_at_five() {
    let mut c = Candidates::new(None);
    assert_eq!(c.next_candidate(), Some(5));
    assert_eq!(c.next_candidate(), Some(7));
    let mut empty = Candidates::new(Some(3));
    assert_eq!(empty.next_candidate(), None);
}
