//! Running sum.

use vstd::prelude::*;

verus! {

use crate::rat::Rat;
use crate::ratio::{
    add_fits, add_r, add_v, all_wf, lemma_add_congr, lemma_add_v, lemma_eq_trans, lemma_rwf2,
    lemma_sub_congr, lemma_sub_v, lemma_sum_push, lemma_sum_remove, lemma_sum_wf, rat_eq, sub_fits,
    sub_r, sub_v, sum_of, Ratio,
};
use crate::stats::{first_eq, lemma_first_eq, Error, Revertable, RollableUnivariate, Univariate};

/// Accumulates the exact sum of the observations seen so far.  The count of
/// observations is kept alongside so that reverting more observations than
/// were applied can be reported as `RevertUnderflow`.
pub struct Sum {
    pub sum: Rat,
    pub count: u64,
    pub hist: Ghost<Seq<Ratio>>,
}

impl Sum {
    /// A fresh sum at zero.
    pub fn new() -> (r: Sum)
        ensures
            r.inv(),
            r.hist() == Seq::<Ratio>::empty(),
    {
        Sum { sum: Rat::zero(), count: 0, hist: Ghost(Seq::empty()) }
    }
}

impl Sum {
    /// Incorporates one observation when its arithmetic stays representable,
    /// reporting whether it did; host code can call this without evaluating
    /// the specification-level premise.
    pub fn try_update(&mut self, x: &Rat) -> (r: bool)
        requires
            old(self).inv(),
        ensures
            final(self).inv(),
            r <==> old(self).can_update(x@),
            r ==> final(self).hist@ == old(self).hist@.push(x@),
            !r ==> *final(self) == *old(self),
    {
        if self.count >= u64::MAX {
            return false;
        }
        match self.sum.checked_add(x) {
            Some(_) => {
                self.update(x);
                true
            },
            None => false,
        }
    }
}

impl Univariate for Sum {
    open spec fn inv(&self) -> bool {
        &&& self.count == self.hist@.len()
        &&& all_wf(self.hist@)
        &&& rat_eq(self.sum@, sum_of(self.hist@))
    }

    open spec fn hist(&self) -> Seq<Ratio> {
        self.hist@
    }

    open spec fn can_update(&self, x: Ratio) -> bool {
        self.count < u64::MAX && add_fits(self.sum@, x)
    }

    open spec fn can_get(&self) -> bool {
        true
    }

    open spec fn stat(&self) -> Ratio {
        sum_of(self.hist@)
    }

    fn update(&mut self, x: &Rat) {
        proof {
            use_type_invariant(&self.sum);
            Rat::lemma_inv_in64(self.sum);
            use_type_invariant(&*x);
            Rat::lemma_inv_in64(*x);
            lemma_add_v(self.sum@, x@);
            lemma_sum_wf(self.hist@);
            lemma_add_congr(self.sum@, x@, sum_of(self.hist@), x@);
            lemma_sum_push(self.hist@, x@);
            lemma_rwf2(sum_of(self.hist@), x@);
            lemma_eq_trans(
                add_v(self.sum@, x@),
                add_r(self.sum@, x@),
                add_r(sum_of(self.hist@), x@),
            );
        }
        let new_sum = self.sum.add(x);
        self.sum = new_sum;
        self.count = self.count + 1;
        proof {
            self.hist@ = self.hist@.push(x@);
        }
    }

    fn get(&self) -> (r: Rat) {
        self.sum
    }
}

impl Revertable for Sum {
    open spec fn can_revert(&self, x: Ratio) -> bool {
        sub_fits(self.sum@, x)
    }

    open spec fn can_cycle(&self, e: Ratio, x: Ratio) -> bool {
        sub_fits(self.sum@, e) && add_fits(sub_v(self.sum@, e), x)
    }

    proof fn cycle_implies_revert(&self, e: Ratio, x: Ratio) {
    }

    fn revert(&mut self, x: &Rat) -> (r: Result<(), Error>) {
        if self.count == 0 {
            return Err(Error::RevertUnderflow);
        }
        proof {
            use_type_invariant(&self.sum);
            Rat::lemma_inv_in64(self.sum);
            use_type_invariant(&*x);
            Rat::lemma_inv_in64(*x);
            lemma_first_eq(self.hist@, x@);
            let i = first_eq(self.hist@, x@);
            lemma_sum_remove(self.hist@, i);
            lemma_sum_wf(self.hist@);
            lemma_sub_v(self.sum@, x@);
            lemma_sub_congr(self.sum@, x@, sum_of(self.hist@), self.hist@[i]);
            lemma_rwf2(sum_of(self.hist@), self.hist@[i]);
            lemma_eq_trans(
                sub_v(self.sum@, x@),
                sub_r(self.sum@, x@),
                sub_r(sum_of(self.hist@), self.hist@[i]),
            );
            lemma_sum_wf(self.hist@.remove(i));
            lemma_eq_trans(
                sub_v(self.sum@, x@),
                sub_r(sum_of(self.hist@), self.hist@[i]),
                sum_of(self.hist@.remove(i)),
            );
        }
        let new_sum = self.sum.sub(x);
        self.sum = new_sum;
        self.count = self.count - 1;
        proof {
            self.hist@ = self.hist@.remove(first_eq(self.hist@, x@));
        }
        Ok(())
    }
}

impl RollableUnivariate for Sum {

}

} // verus!
