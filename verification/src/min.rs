//! A minimal running-minimum wrapper with inherent methods.

use vstd::prelude::*;

verus! {

use crate::rat::Rat;
use crate::ratio::{int_r, rat_lt, Ratio};

/// Tracks the smallest observation; starts at the largest representable
/// value as a sentinel.
pub struct Min {
    pub min: Rat,
}

impl Min {
    /// A fresh minimum at the sentinel.
    pub fn new() -> (r: Min)
        ensures
            r.min@ == int_r(i64::MAX as int),
    {
        Min { min: Rat::from_i64(i64::MAX) }
    }

    /// Keeps the smaller of the stored value and `x`.
    pub fn update(&mut self, x: &Rat)
        ensures
            final(self).min == (if rat_lt(x@, old(self).min@) {
                *x
            } else {
                old(self).min
            }),
    {
        if x.lt(&self.min) {
            self.min = *x;
        }
    }

    /// The smallest observation so far (the sentinel before any).
    pub fn get(&self) -> (r: Rat)
        ensures
            r == self.min,
    {
        self.min
    }
}

} // verus!
