//! An optionally half-open inclusive range of counts.

use vstd::prelude::*;

verus! {

/// A range with optional lower and upper inclusive bounds.
#[derive(Clone, Copy, Debug)]
pub struct Ranged {
    pub lo: Option<usize>,
    pub hi: Option<usize>,
}

impl Ranged {
    /// The bounds as given.
    pub open spec fn spec_lo(&self) -> Option<usize> {
        self.lo
    }

    /// The bounds as given.
    pub open spec fn spec_hi(&self) -> Option<usize> {
        self.hi
    }

    /// Whether a count lies inside the range.
    pub open spec fn spec_contains(&self, t: int) -> bool {
        &&& match self.lo {
            Option::None => true,
            Option::Some(l) => t >= l,
        }
        &&& match self.hi {
            Option::None => true,
            Option::Some(h) => t <= h,
        }
    }

    /// A range from its optional bounds.
    pub fn new(lo: Option<usize>, hi: Option<usize>) -> (r: Ranged)
        ensures
            r.lo == lo,
            r.hi == hi,
    {
        Ranged { lo, hi }
    }

    /// Whether a count lies inside the range.
    pub fn contains(self, t: usize) -> (r: bool)
        ensures
            r == self.spec_contains(t as int),
    {
        let lo_ok = match self.lo {
            None => true,
            Some(l) => t >= l,
        };
        let hi_ok = match self.hi {
            None => true,
            Some(h) => t <= h,
        };
        lo_ok && hi_ok
    }
}

} // verus!
