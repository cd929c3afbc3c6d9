//! Running count of observations.

use vstd::prelude::*;

verus! {

use crate::rat::Rat;
use crate::ratio::{int_r, rat_eq, Ratio};
use crate::stats::{first_eq, lemma_first_eq, Error, Revertable, RollableUnivariate, Univariate};

/// Counts the observations seen so far.  The value is exact; reverting past
/// zero reports `RevertUnderflow`.
pub struct Count {
    pub count: u64,
    pub hist: Ghost<Seq<Ratio>>,
}

impl Count {
    /// A fresh counter at zero.
    pub fn new() -> (r: Count)
        ensures
            r.inv(),
            r.hist() == Seq::<Ratio>::empty(),
    {
        Count { count: 0, hist: Ghost(Seq::empty()) }
    }

    /// Incorporates one observation when the counter has room, reporting
    /// whether it did; host code can call this without evaluating the
    /// specification-level premise.
    pub fn try_update(&mut self, x: &Rat) -> (r: bool)
        requires
            old(self).inv(),
        ensures
            final(self).inv(),
            r <==> old(self).can_update(x@),
            r ==> final(self).hist@ == old(self).hist@.push(x@),
            !r ==> *final(self) == *old(self),
    {
        if self.count < i64::MAX as u64 {
            self.update(x);
            true
        } else {
            false
        }
    }

    /// The count as a machine integer.
    pub fn total(&self) -> (r: u64)
        requires
            self.inv(),
        ensures
            r == self.hist().len(),
    {
        self.count
    }
}

impl Univariate for Count {
    open spec fn inv(&self) -> bool {
        self.count == self.hist@.len() && self.count <= i64::MAX as u64
    }

    open spec fn hist(&self) -> Seq<Ratio> {
        self.hist@
    }

    open spec fn can_update(&self, x: Ratio) -> bool {
        self.count < i64::MAX as u64
    }

    open spec fn can_get(&self) -> bool {
        true
    }

    open spec fn stat(&self) -> Ratio {
        int_r(self.hist@.len() as int)
    }

    fn update(&mut self, x: &Rat)
        ensures
            final(self).count == old(self).count + 1,
    {
        self.count = self.count + 1;
        proof {
            self.hist@ = self.hist@.push(x@);
        }
    }

    fn get(&self) -> (r: Rat) {
        Rat::from_i64(self.count as i64)
    }
}

impl Revertable for Count {
    open spec fn can_revert(&self, x: Ratio) -> bool {
        true
    }

    open spec fn can_cycle(&self, e: Ratio, x: Ratio) -> bool {
        true
    }

    proof fn cycle_implies_revert(&self, e: Ratio, x: Ratio) {
    }

    fn revert(&mut self, x: &Rat) -> (r: Result<(), Error>) {
        if self.count == 0 {
            return Err(Error::RevertUnderflow);
        }
        self.count = self.count - 1;
        proof {
            lemma_first_eq(self.hist@, x@);
            self.hist@ = self.hist@.remove(first_eq(self.hist@, x@));
        }
        Ok(())
    }
}

impl RollableUnivariate for Count {

}

} // verus!
