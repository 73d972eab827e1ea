//! The odd candidates of a search: 5, 7, 9, ... strictly below a bound.

use vstd::prelude::*;

verus! {

/// The odd numbers from 5 upward, strictly below `end`; restartable only by
/// building a new one.
pub struct Candidates {
    next: u64,
    end: u64,
}

impl Candidates {
    /// The candidate that comes next, if it is below the bound.
    pub closed spec fn next_value(&self) -> int {
        self.next as int
    }

    /// The exclusive upper bound.
    pub closed spec fn end_value(&self) -> int {
        self.end as int
    }

    /// `next` is odd and at least 5, and passes the bound by at most one.
    pub closed spec fn wf(&self) -> bool {
        &&& self.next % 2 == 1
        &&& 5 <= self.next
        &&& self.end <= u32::MAX
        &&& (self.next == 5 || self.next <= self.end + 1)
    }

    /// The candidates below `max_candidate`, or below `u32::MAX` when there is
    /// no maximum.
    pub fn new(max_candidate: Option<u32>) -> (r: Candidates)
        ensures
            r.wf(),
            r.next_value() == 5,
            r.end_value() == match max_candidate {
                Some(m) => m as int,
                None => u32::MAX as int,
            },
    {
        let end = match max_candidate {
            Some(m) => m,
            None => u32::MAX,
        };
        Candidates { next: 5, end: end as u64 }
    }

    /// Hands out the next candidate and steps by two, or `None` once the
    /// bound is reached.
    pub fn next_candidate(&mut self) -> (r: Option<u32>)
        requires
            old(self).wf(),
        ensures
            final(self).wf(),
            final(self).end_value() == old(self).end_value(),
            old(self).next_value() < old(self).end_value() ==> r == Some(
                old(self).next_value() as u32,
            ) && final(self).next_value() == old(self).next_value() + 2,
            old(self).next_value() >= old(self).end_value() ==> r is None && *final(self)
                == *old(self),
    {
        if self.next < self.end {
            let c = self.next as u32;
            self.next = self.next + 2;
            Some(c)
        } else {
            None
        }
    }

    /// Facts about every well-formed iterator: the next candidate is odd, at
    /// least 5, and below `2^32 + 1`.
    pub proof fn lemma_wf_bounds(&self)
        requires
            self.wf(),
        ensures
            self.next_value() % 2 == 1,
            5 <= self.next_value() <= u32::MAX + 1,
            self.end_value() <= u32::MAX,
            self.next_value() == 5 || self.next_value() <= self.end_value() + 1,
    {
    }
}

} // verus!
