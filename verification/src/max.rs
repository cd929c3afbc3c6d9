//! A minimal running-maximum wrapper with inherent methods.

use vstd::prelude::*;

verus! {

use crate::rat::Rat;
use crate::ratio::{int_r, rat_lt, Ratio};

/// Tracks the largest observation; starts at the smallest representable
/// value as a sentinel.
pub struct Max {
    pub max: Rat,
}

impl Max {
    /// A fresh maximum at the sentinel.
    pub fn new() -> (r: Max)
        ensures
            r.max@ == int_r(-(i64::MAX as int)),
    {
        Max { max: Rat::from_i64(i64::MIN + 1) }
    }

    /// Keeps the larger of the stored value and `x`.
    pub fn update(&mut self, x: &Rat)
        ensures
            final(self).max == (if rat_lt(old(self).max@, x@) {
                *x
            } else {
                old(self).max
            }),
    {
        if self.max.lt(x) {
            self.max = *x;
        }
    }

    /// The largest observation so far (the sentinel before any).
    pub fn get(&self) -> (r: Rat)
        ensures
            r == self.max,
    {
        self.max
    }
}

} // verus!
