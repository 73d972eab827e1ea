//! The search session: walks the candidates, keeps the primes found, decides
//! the reports, and stops at the candidate bound, at the prime goal, or when
//! cancelled.

use crate::candidates::Candidates;
use crate::primality::{
    all_prime, check_prime, holds, is_prime, lemma_trial_division_exact, strictly_ascending,
};
use crate::report::{counter_after, counter_bounded, decide_report, report_for, Intervals, Report};
use vstd::prelude::*;

verus! {

/// The settings of one search, fixed for its whole run.
#[derive(Clone, Copy, Debug, PartialEq, Eq, Structural)]
pub struct SearchConfig {
    /// Candidates are tested strictly below this (below `u32::MAX` when absent).
    pub max_candidate: Option<u32>,
    /// Stop once this many primes are held (2 not counted).
    pub prime_goal: Option<u32>,
    /// Primes found between major reports; zero disables them.
    pub major_interval: u32,
    /// Primes found between minor reports; zero disables them.
    pub minor_interval: u32,
    /// Minor reports between header reprints; zero disables the header.
    pub header_interval: u32,
}

/// Where a search stands. Every state but `Running` is final.
#[derive(Clone, Copy, Debug, PartialEq, Eq, Structural)]
pub enum Status {
    Running,
    StoppedByCandidateLimit,
    StoppedByGoal,
    StoppedByCancellation,
}

/// A prime just found, and the report it calls for.
#[derive(Clone, Copy, Debug, PartialEq, Eq, Structural)]
pub struct Discovery {
    pub prime: u32,
    pub report: Report,
}

/// The reporting periods of a configuration.
pub open spec fn intervals_of(config: SearchConfig) -> Intervals {
    Intervals {
        major: config.major_interval,
        minor: config.minor_interval,
        header: config.header_interval,
    }
}

/// The exclusive bound on candidates.
pub open spec fn candidate_end(config: SearchConfig) -> int {
    match config.max_candidate {
        Some(m) => m as int,
        None => u32::MAX as int,
    }
}

/// The number of held primes at which the search stops.
pub open spec fn goal_limit(config: SearchConfig) -> int {
    match config.prime_goal {
        Some(g) => g as int,
        None => u32::MAX as int,
    }
}

/// `p` is an odd prime.
pub open spec fn is_odd_prime(p: int) -> bool {
    is_prime(p) && p % 2 == 1
}

/// No prime lies in `[lo, hi)`.
pub open spec fn no_prime_between(lo: int, hi: int) -> bool {
    forall|x: int| lo <= x < hi ==> !#[trigger] is_prime(x)
}

/// An even number above 2 is not prime.
proof fn lemma_even_not_prime(c: int)
    requires
        c >= 4,
        c % 2 == 0,
    ensures
        !is_prime(c),
{
}

/// A search session.
pub struct Search {
    config: SearchConfig,
    primes: Vec<u32>,
    candidates: Candidates,
    header_counter: u64,
    status: Status,
}

impl Search {
    /// The primes held, ascending: 3 first, 2 left implicit.
    pub closed spec fn primes_view(&self) -> Seq<u32> {
        self.primes@
    }

    /// The candidate that is tested next.
    pub closed spec fn next_value(&self) -> int {
        self.candidates.next_value()
    }

    pub closed spec fn config_view(&self) -> SearchConfig {
        self.config
    }

    pub closed spec fn status_view(&self) -> Status {
        self.status
    }

    /// The counter of minor reports since the last header.
    pub closed spec fn counter_view(&self) -> int {
        self.header_counter as int
    }

    /// The session invariant: the held primes are exactly the odd primes below
    /// the next candidate, ascending.
    pub closed spec fn wf(&self) -> bool {
        &&& self.candidates.wf()
        &&& self.candidates.end_value() == candidate_end(self.config)
        &&& self.primes@.len() >= 1
        &&& self.primes@[0] == 3
        &&& strictly_ascending(self.primes@)
        &&& all_prime(self.primes@)
        &&& forall|i: int|
            0 <= i < self.primes@.len() ==> #[trigger] self.primes@[i] < self.candidates.next_value()
        &&& forall|p: int|
            #[trigger] is_odd_prime(p) && p < self.candidates.next_value() ==> holds(
                self.primes@,
                p,
            )
        &&& self.primes@.len() <= (self.candidates.next_value() - 3) / 2
        &&& counter_bounded(self.header_counter as int, intervals_of(self.config))
    }

    /// A fresh session: only 3 held, the next candidate 5, running.
    pub fn new(config: SearchConfig) -> (r: Search)
        ensures
            r.wf(),
            r.primes_view() == seq![3u32],
            r.next_value() == 5,
            r.config_view() == config,
            r.status_view() == Status::Running,
            r.counter_view() == 0,
    {
        let candidates = Candidates::new(config.max_candidate);
        let primes: Vec<u32> = vec![3];
        let r = Search { config, primes, candidates, header_counter: 0, status: Status::Running };
        proof {
            assert forall|p: int| #[trigger] is_odd_prime(p) && p < 5 implies holds(
                r.primes@,
                p,
            ) by {
                assert(p == 3);
                assert(r.primes@[0] == 3);
            }
            assert(is_prime(3)) by {
                assert forall|d: int| 2 <= d < 3 implies #[trigger] (3int % d) != 0 by {
                    assert(d == 2);
                }
            }
        }
        r
    }

    /// Tests candidates until one is prime or they run out. A prime found is
    /// appended and its report decided; the search then stops if the goal is
    /// reached. Running out stops the search at the candidate limit.
    pub fn advance(&mut self) -> (r: Option<Discovery>)
        requires
            old(self).wf(),
            old(self).status_view() == Status::Running,
        ensures
            final(self).wf(),
            final(self).config_view() == old(self).config_view(),
            match r {
                Some(d) => {
                    &&& is_prime(d.prime as int)
                    &&& old(self).next_value() <= d.prime < candidate_end(old(self).config_view())
                    &&& no_prime_between(old(self).next_value(), d.prime as int)
                    &&& final(self).primes_view() == old(self).primes_view().push(d.prime)
                    &&& final(self).next_value() == d.prime + 2
                    &&& d.report == report_for(
                        final(self).primes_view().len() + 1 as int,
                        d.prime,
                        old(self).counter_view(),
                        intervals_of(old(self).config_view()),
                    )
                    &&& final(self).counter_view() == counter_after(
                        final(self).primes_view().len() + 1 as int,
                        old(self).counter_view(),
                        intervals_of(old(self).config_view()),
                    )
                    &&& final(self).status_view() == if final(self).primes_view().len()
                        >= goal_limit(old(self).config_view()) {
                        Status::StoppedByGoal
                    } else {
                        Status::Running
                    }
                },
                None => {
                    &&& no_prime_between(
                        old(self).next_value(),
                        candidate_end(old(self).config_view()),
                    )
                    &&& final(self).primes_view() == old(self).primes_view()
                    &&& final(self).counter_view() == old(self).counter_view()
                    &&& final(self).status_view() == Status::StoppedByCandidateLimit
                },
            },
    {
        let ghost start = self.candidates.next_value();
        loop
            invariant
                self.wf(),
                self.config == old(self).config,
                self.primes@ == old(self).primes@,
                self.header_counter == old(self).header_counter,
                self.status == Status::Running,
                start == old(self).next_value(),
                start <= self.candidates.next_value(),
                no_prime_between(start, self.candidates.next_value()),
            decreases u32::MAX + 2 - self.candidates.next_value(),
        {
            proof {
                self.candidates.lemma_wf_bounds();
            }
            let ghost before = self.candidates.next_value();
            let ghost old_primes = self.primes@;
            match self.candidates.next_candidate() {
                None => {
                    self.status = Status::StoppedByCandidateLimit;
                    proof {
                        assert forall|x: int|
                            start <= x < candidate_end(self.config) implies !#[trigger] is_prime(
                            x,
                        ) by {
                            if x >= before {
                                assert(false);
                            }
                        }
                    }
                    return None;
                },
                Some(c) => {
                    let ghost ci = c as int;
                    proof {
                        assert(ci == before);
                        assert forall|i: int| 0 <= i < old_primes.len() implies #[trigger] old_primes[i]
                            > 0 by {
                            assert(is_prime(old_primes[i] as int));
                        }
                        assert forall|p: int|
                            #![trigger is_prime(p), ci % p]
                            is_prime(p) && p < ci && ci % p == 0 implies holds(old_primes, p) by {
                            if p % 2 == 0 {
                                if p > 2 {
                                    lemma_even_not_prime(p);
                                }
                                assert(ci % 2 == 0);
                            }
                            assert(is_odd_prime(p));
                        }
                        lemma_trial_division_exact(ci, old_primes);
                        lemma_even_not_prime(ci + 1);
                    }
                    if check_prime(c, &self.primes) {
                        self.primes.push(c);
                        let count = self.primes.len() as u32 + 1;
                        let intervals = Intervals {
                            major: self.config.major_interval,
                            minor: self.config.minor_interval,
                            header: self.config.header_interval,
                        };
                        let (report, counter) = decide_report(
                            count,
                            c,
                            self.header_counter,
                            intervals,
                        );
                        self.header_counter = counter;
                        let goal = match self.config.prime_goal {
                            Some(g) => g,
                            None => u32::MAX,
                        };
                        if self.primes.len() as u32 >= goal {
                            self.status = Status::StoppedByGoal;
                        }
                        proof {
                            let s = self.primes@;
                            assert(s == old_primes.push(c));
                            assert forall|p: int|
                                #[trigger] is_odd_prime(p) && p < ci + 2 implies holds(s, p) by {
                                if p < ci {
                                    let i = choose|i: int|
                                        0 <= i < old_primes.len() && old_primes[i] as int == p;
                                    assert(s[i] == old_primes[i]);
                                } else {
                                    assert(p == ci);
                                    assert(s[s.len() - 1] == c);
                                }
                            }
                            assert forall|i: int| 0 <= i < s.len() implies is_prime(
                                #[trigger] s[i] as int,
                            ) by {
                                if i < old_primes.len() {
                                    assert(s[i] == old_primes[i]);
                                }
                            }
                        }
                        return Some(Discovery { prime: c, report });
                    }
                    proof {
                        assert forall|p: int|
                            #[trigger] is_odd_prime(p) && p < ci + 2 implies holds(
                            self.primes@,
                            p,
                        ) by {
                            if p >= ci {
                                assert(p == ci || p == ci + 1);
                            }
                        }
                        assert forall|x: int| start <= x < ci + 2 implies !#[trigger] is_prime(
                            x,
                        ) by {
                            if x >= before {
                                assert(x == ci || x == ci + 1);
                            }
                        }
                    }
                },
            }
        }
    }
    /// Stops a running search at the user's request; a stopped search stays
    /// as it is.
    pub fn cancel(&mut self)
        requires
            old(self).wf(),
        ensures
            final(self).wf(),
            final(self).primes_view() == old(self).primes_view(),
            final(self).next_value() == old(self).next_value(),
            final(self).config_view() == old(self).config_view(),
            final(self).counter_view() == old(self).counter_view(),
            final(self).status_view() == if old(self).status_view() == Status::Running {
                Status::StoppedByCancellation
            } else {
                old(self).status_view()
            },
    {
        if self.status == Status::Running {
            self.status = Status::StoppedByCancellation;
        }
    }

    /// The primes held, ascending.
    pub fn primes(&self) -> (r: &Vec<u32>)
        ensures
            r@ == self.primes_view(),
    {
        &self.primes
    }

    /// How many primes are held (2 not counted).
    pub fn prime_count(&self) -> (r: usize)
        ensures
            r == self.primes_view().len(),
    {
        self.primes.len()
    }

    /// How many primes the session has found, as its final report counts
    /// them: the held primes and 2, which the search leaves implicit.
    pub fn session_count(&self) -> (r: u32)
        requires
            self.wf(),
        ensures
            r as int == self.primes_view().len() + 1,
    {
        proof {
            self.candidates.lemma_wf_bounds();
        }
        self.primes.len() as u32 + 1
    }

    /// The most recently found prime (3 before any discovery).
    pub fn last_prime(&self) -> (r: u32)
        requires
            self.wf(),
        ensures
            r == self.primes_view().last(),
    {
        self.primes[self.primes.len() - 1]
    }

    pub fn status(&self) -> (r: Status)
        ensures
            r == self.status_view(),
    {
        self.status
    }

    pub fn config(&self) -> (r: SearchConfig)
        ensures
            r == self.config_view(),
    {
        self.config
    }

    /// Whether the table header is printed before the search starts: only
    /// when both minor reports and the header are enabled.
    pub fn starts_with_header(&self) -> (r: bool)
        ensures
            r == (self.config_view().minor_interval != 0 && self.config_view().header_interval
                != 0),
    {
        self.config.minor_interval != 0 && self.config.header_interval != 0
    }

    /// Whatever the sequence of discoveries and cancellations, the held
    /// primes stay ascending without duplicates, are all prime, and are
    /// exactly the odd primes below the next candidate.
    pub proof fn lemma_primes_ascending(&self)
        requires
            self.wf(),
        ensures
            strictly_ascending(self.primes_view()),
            all_prime(self.primes_view()),
            forall|p: int|
                #[trigger] holds(self.primes_view(), p) <==> is_odd_prime(p) && p
                    < self.next_value(),
    {
        assert forall|p: int| #[trigger] holds(self.primes_view(), p) implies is_odd_prime(p) && p
            < self.next_value() by {
            let i = choose|i: int| 0 <= i < self.primes@.len() && self.primes@[i] as int == p;
            assert(is_prime(self.primes@[i] as int));
            if p % 2 == 0 {
                assert(self.primes@[0] < self.primes@[i]);
                lemma_even_not_prime(p);
            }
        }
    }
}

} // verus!
