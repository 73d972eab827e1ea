//! Trial division against an ascending sequence of known primes.

use vstd::arithmetic::div_mod::{lemma_fundamental_div_mod, lemma_mod_multiples_basic};
use vstd::prelude::*;

verus! {

/// `n` is prime: at least 2, with no divisor between 2 and `n - 1`.
pub open spec fn is_prime(n: int) -> bool {
    n >= 2 && forall|d: int| 2 <= d < n ==> #[trigger] (n % d) != 0
}

/// Every element is smaller than the one after it.
pub open spec fn strictly_ascending(s: Seq<u32>) -> bool {
    forall|i: int, j: int| 0 <= i < j < s.len() ==> s[i] < s[j]
}

/// `v` is an element of `s`.
pub open spec fn holds(s: Seq<u32>, v: int) -> bool {
    exists|i: int| 0 <= i < s.len() && s[i] as int == v
}

/// Every element of `s` is prime.
pub open spec fn all_prime(s: Seq<u32>) -> bool {
    forall|i: int| 0 <= i < s.len() ==> is_prime(#[trigger] s[i] as int)
}

/// Trial division reaches the element at index `i`: every element before it
/// has a square of at most `c` (is at most the integer square root of `c`).
pub open spec fn reaches(s: Seq<u32>, c: int, i: int) -> bool {
    forall|j: int| 0 <= j < i ==> #[trigger] s[j] * s[j] <= c
}

/// Trial division of `c` by `s` finds no divisor: no element that the walk
/// reaches divides `c`. The walk stops after the first element above the
/// square root of `c`.
pub open spec fn passes_trial_division(c: int, s: Seq<u32>) -> bool {
    !exists|i: int| 0 <= i < s.len() && #[trigger] (c % (s[i] as int)) == 0 && reaches(s, c, i)
}

/// The smallest divisor of `n` that is at least `d`, or `n` itself where
/// there is none below `n`.
spec fn least_divisor_from(n: int, d: int) -> int
    decreases n - d,
{
    if d >= n || d <= 0 {
        n
    } else if n % d == 0 {
        d
    } else {
        least_divisor_from(n, d + 1)
    }
}

proof fn lemma_least_divisor_from(n: int, d: int)
    requires
        2 <= d <= n,
    ensures
        d <= least_divisor_from(n, d) <= n,
        n % least_divisor_from(n, d) == 0,
        forall|k: int| d <= k < least_divisor_from(n, d) ==> #[trigger] (n % k) != 0,
    decreases n - d,
{
    if d == n {
        lemma_mod_multiples_basic(1, n);
    } else if n % d != 0 {
        lemma_least_divisor_from(n, d + 1);
    }
}

proof fn lemma_divides_transitive(n: int, m: int, k: int)
    requires
        n > 0,
        m > 0,
        k > 0,
        n % m == 0,
        m % k == 0,
    ensures
        n % k == 0,
{
    lemma_fundamental_div_mod(n, m);
    lemma_fundamental_div_mod(m, k);
    let q = n / m;
    let r = m / k;
    assert(n == (r * q) * k) by (nonlinear_arith)
        requires
            n == m * q,
            m == k * r,
    ;
    lemma_mod_multiples_basic(r * q, k);
}

/// A composite `n` has a prime divisor whose square is at most `n`.
proof fn lemma_small_prime_factor(n: int) -> (m: int)
    requires
        n >= 2,
        !is_prime(n),
    ensures
        is_prime(m),
        n % m == 0,
        m * m <= n,
{
    let d0 = choose|d: int| 2 <= d < n && #[trigger] (n % d) == 0;
    lemma_least_divisor_from(n, 2);
    let m = least_divisor_from(n, 2);
    assert(m <= d0);
    assert forall|k: int| 2 <= k < m implies #[trigger] (m % k) != 0 by {
        if m % k == 0 {
            lemma_divides_transitive(n, m, k);
        }
    }
    lemma_fundamental_div_mod(n, m);
    let q = n / m;
    assert(n == q * m);
    assert(q >= 2) by (nonlinear_arith)
        requires
            n == q * m,
            2 <= m < n,
    ;
    assert(q < n) by (nonlinear_arith)
        requires
            n == q * m,
            m >= 2,
            n >= 2,
    ;
    lemma_mod_multiples_basic(m, q);
    assert(n % q == 0);
    assert(q >= m);
    assert(m * m <= n) by (nonlinear_arith)
        requires
            n == q * m,
            q >= m,
            m >= 0,
    ;
    m
}

/// Trial division decides primality of `n` once `s` is ascending, holds only
/// primes below `n`, and holds every prime below `n` that divides `n`.
pub proof fn lemma_trial_division_exact(n: int, s: Seq<u32>)
    requires
        n >= 2,
        strictly_ascending(s),
        all_prime(s),
        forall|i: int| 0 <= i < s.len() ==> #[trigger] s[i] < n,
        forall|p: int|
            #![trigger is_prime(p), n % p]
            is_prime(p) && p < n && n % p == 0 ==> holds(s, p),
    ensures
        passes_trial_division(n, s) == is_prime(n),
{
    if is_prime(n) {
        assert forall|i: int| 0 <= i < s.len() implies #[trigger] (n % (s[i] as int)) != 0 by {
            assert(is_prime(s[i] as int));
        }
    } else {
        let m = lemma_small_prime_factor(n);
        assert(m < n) by (nonlinear_arith)
            requires
                m * m <= n,
                m >= 2,
        ;
        assert(holds(s, m));
        let i = choose|i: int| 0 <= i < s.len() && s[i] as int == m;
        assert forall|j: int| 0 <= j < i implies #[trigger] s[j] * s[j] <= n by {
            let x = s[j] as int;
            assert(x < m);
            assert(x * x <= m * m) by (nonlinear_arith)
                requires
                    0 <= x < m,
            ;
        }
        assert(n % (s[i] as int) == 0);
        assert(reaches(s, n, i));
    }
}

/// For every `n > 3` and a correct ascending sequence of all the primes below
/// `n`, trial division by that sequence agrees with primality.
pub proof fn lemma_trial_division_decides_primality(n: int, s: Seq<u32>)
    requires
        n > 3,
        strictly_ascending(s),
        all_prime(s),
        forall|i: int| 0 <= i < s.len() ==> #[trigger] s[i] < n,
        forall|p: int| #[trigger] is_prime(p) && p < n ==> holds(s, p),
    ensures
        passes_trial_division(n, s) == is_prime(n),
{
    lemma_trial_division_exact(n, s);
}

/// The integer square root: the largest `r` with `r * r <= n`.
pub fn isqrt(n: u32) -> (r: u32)
    ensures
        r * r <= n,
        n < (r + 1) * (r + 1),
{
    let mut lo: u64 = 0;
    let mut hi: u64 = 65536;
    assert(hi * hi > u32::MAX) by (nonlinear_arith)
        requires
            hi == 65536,
    ;
    while hi - lo > 1
        invariant
            lo < hi <= 65536,
            lo * lo <= n,
            n < hi * hi,
        decreases hi - lo,
    {
        let mid: u64 = lo + (hi - lo) / 2;
        assert(mid * mid <= 65536 * 65536) by (nonlinear_arith)
            requires
                mid <= 65536,
        ;
        if mid * mid <= n as u64 {
            lo = mid;
        } else {
            hi = mid;
        }
    }
    assert(hi == lo + 1);
    lo as u32
}

/// Decides whether `candidate` is prime by dividing it by `known_primes` in
/// order. The walk stops at the first divisor (not prime) or after the first
/// element above the integer square root of `candidate` (prime).
pub fn check_prime(candidate: u32, known_primes: &Vec<u32>) -> (r: bool)
    requires
        forall|i: int| 0 <= i < known_primes@.len() ==> #[trigger] known_primes@[i] > 0,
    ensures
        r == passes_trial_division(candidate as int, known_primes@),
{
    let limit = isqrt(candidate);
    let ghost s = known_primes@;
    let ghost c = candidate as int;
    let mut i: usize = 0;
    while i < known_primes.len()
        invariant
            0 <= i <= s.len(),
            s == known_primes@,
            c == candidate as int,
            limit * limit <= c < (limit + 1) * (limit + 1),
            forall|k: int| 0 <= k < s.len() ==> #[trigger] s[k] > 0,
            reaches(s, c, i as int),
            forall|k: int| 0 <= k < i ==> #[trigger] (c % (s[k] as int)) != 0,
        decreases s.len() - i,
    {
        let p = known_primes[i];
        if candidate % p == 0 {
            assert(c % (s[i as int] as int) == 0);
            return false;
        }
        if p > limit {
            assert forall|k: int| 0 <= k < s.len() && reaches(s, c, k) implies #[trigger] (c
                % (s[k] as int)) != 0 by {
                if k > i {
                    assert(s[i as int] * s[i as int] <= c);
                    let pi = p as int;
                    let li = limit as int;
                    assert(pi * pi > c) by (nonlinear_arith)
                        requires
                            pi >= li + 1,
                            c < (li + 1) * (li + 1),
                            li >= 0,
                    ;
                }
            }
            return true;
        }
        proof {
            let pi = p as int;
            let li = limit as int;
            assert(pi * pi <= c) by (nonlinear_arith)
                requires
                    0 <= pi <= li,
                    li * li <= c,
            ;
            assert forall|j: int| 0 <= j < i + 1 implies #[trigger] s[j] * s[j] <= c by {
                if j == i {
                    assert(s[j] == p);
                }
            }
        }
        i = i + 1;
    }
    true
}

} // verus!
