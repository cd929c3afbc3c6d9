//! Running mean, updated by West's incremental recurrence.

use vstd::prelude::*;

verus! {

use crate::count::Count;
use crate::rat::Rat;
use crate::ratio::{
    add_fits, add_r, add_v, all_wf, div_fits, div_r, div_v, int_r, lemma_add_congr,
    lemma_div_congr, lemma_div_v, lemma_eq_trans, lemma_mean_first, lemma_mean_revert,
    lemma_mean_step, lemma_rwf2, lemma_sub_congr, lemma_sum_push, lemma_sum_remove, lemma_sum_wf,
    rat_eq, rwf, sub_fits, sub_r, sub_v, sum_of, Ratio,
};
use crate::stats::{first_eq, lemma_first_eq, Error, Revertable, RollableUnivariate, Univariate};

/// Maintains the arithmetic mean of the stream incrementally: one division
/// per update, no stored history.  The reported value is proved equal to the
/// exact sum of the observations divided by their count.
pub struct Mean {
    pub mean: Rat,
    pub n: Count,
}

impl Mean {
    /// A fresh mean at zero.
    pub fn new() -> (r: Mean)
        ensures
            r.inv(),
            r.hist() == Seq::<Ratio>::empty(),
    {
        Mean { mean: Rat::zero(), n: Count::new() }
    }

    /// The representation the mean takes after an update with `x`.
    pub open spec fn mean_after_update(&self, x: Ratio) -> Ratio {
        add_v(
            self.mean@,
            div_v(sub_v(x, self.mean@), int_r(self.n.hist@.len() + 1 as int)),
        )
    }

    /// The representation the mean takes after a successful revert of `e`:
    /// zero when the last observation leaves, the reverse recurrence
    /// otherwise.
    pub open spec fn mean_after_revert(&self, e: Ratio) -> Ratio {
        if self.n.hist@.len() <= 1 {
            int_r(0)
        } else {
            sub_v(self.mean@, div_v(sub_v(e, self.mean@), int_r(self.n.hist@.len() - 1)))
        }
    }

    /// Incorporates one observation, promising the exact representation of
    /// the new state.
    pub fn advance(&mut self, x: &Rat)
        requires
            old(self).inv(),
            old(self).can_update(x@),
        ensures
            final(self).inv(),
            final(self).n.hist@ == old(self).n.hist@.push(x@),
            final(self).mean@ == old(self).mean_after_update(x@),
    {
        let ghost h0 = self.n.hist@;
        let ghost m = self.mean@;
        let ghost k = h0.len() + 1 as int;
        proof {
            use_type_invariant(&self.mean);
            Rat::lemma_inv_in64(self.mean);
            use_type_invariant(&*x);
            Rat::lemma_inv_in64(*x);
        }
        self.n.update(x);
        let count = self.n.total();
        let kr = Rat::from_i64(count as i64);
        let t = x.sub(&self.mean);
        let u = t.div(&kr);
        let nm = self.mean.add(&u);
        proof {
            let h1 = h0.push(x@);
            let kk = int_r(k as int);
            lemma_sum_push(h0, x@);
            lemma_sum_wf(h0);
            assert(kr@ == kk);
            // the computed intermediates equal the textbook expressions
            lemma_div_congr(t@, kk, sub_r(x@, m), kk);
            lemma_div_v(sub_r(x@, m), kk);
            lemma_eq_trans(u@, div_r(t@, kk), div_r(sub_r(x@, m), kk));
            lemma_add_congr(m, u@, m, div_r(sub_r(x@, m), kk));
            lemma_rwf2(m, div_r(sub_r(x@, m), kk));
            lemma_eq_trans(nm@, add_r(m, u@), add_r(m, div_r(sub_r(x@, m), kk)));
            let w = add_r(m, div_r(sub_r(x@, m), kk));
            if h0.len() == 0 {
                lemma_mean_first(m, x@);
                lemma_rwf2(int_r(0), x@);
                lemma_div_v(add_r(int_r(0), x@), kk);
                lemma_eq_trans(nm@, w, div_r(add_r(int_r(0), x@), kk));
                assert(sum_of(h1) == add_r(int_r(0), x@));
            } else {
                lemma_mean_step(m, x@, sum_of(h0), k as int);
                lemma_rwf2(sum_of(h0), x@);
                lemma_div_v(add_r(sum_of(h0), x@), kk);
                lemma_eq_trans(nm@, w, div_r(add_r(sum_of(h0), x@), kk));
            }
        }
        self.mean = nm;
    }

    /// Incorporates one observation when its arithmetic stays representable,
    /// reporting whether it did; host code can call this without evaluating
    /// the specification-level premise.
    pub fn try_update(&mut self, x: &Rat) -> (r: bool)
        requires
            old(self).inv(),
        ensures
            final(self).inv(),
            r <==> old(self).can_update(x@),
            r ==> final(self).n.hist@ == old(self).n.hist@.push(x@) && final(self).mean@ == old(
                self,
            ).mean_after_update(x@),
            !r ==> *final(self) == *old(self),
    {
        if self.n.total() >= i64::MAX as u64 {
            return false;
        }
        let kr = Rat::from_i64(self.n.total() as i64 + 1);
        let t = match x.checked_sub(&self.mean) {
            Some(v) => v,
            None => { return false },
        };
        let u = match t.checked_div(&kr) {
            Some(v) => v,
            None => { return false },
        };
        match self.mean.checked_add(&u) {
            Some(_) => {
                self.advance(x);
                true
            },
            None => false,
        }
    }

    /// Undoes one earlier observation, promising the exact representation of
    /// the new state.
    pub fn retreat(&mut self, x: &Rat) -> (r: Result<(), Error>)
        requires
            old(self).inv(),
            old(self).can_revert(x@),
            old(self).n.hist@.len() > 0 ==> exists|i: int|
                0 <= i < old(self).n.hist@.len() && #[trigger] rat_eq(old(self).n.hist@[i], x@),
        ensures
            final(self).inv(),
            old(self).n.hist@.len() == 0 ==> r == Err::<(), Error>(Error::RevertUnderflow)
                && *final(self) == *old(self),
            old(self).n.hist@.len() > 0 ==> r == Ok::<(), Error>(()) && final(self).n.hist@ == old(
                self,
            ).n.hist@.remove(first_eq(old(self).n.hist@, x@)) && final(self).mean@ == old(
                self,
            ).mean_after_revert(x@),
    {
        let ghost h0 = self.n.hist@;
        let ghost m = self.mean@;
        let ghost k = h0.len() as int;
        if self.n.total() == 0 {
            return Err(Error::RevertUnderflow);
        }
        proof {
            use_type_invariant(&self.mean);
            Rat::lemma_inv_in64(self.mean);
            use_type_invariant(&*x);
            Rat::lemma_inv_in64(*x);
            lemma_first_eq(h0, x@);
            lemma_sum_wf(h0);
            lemma_sum_remove(h0, first_eq(h0, x@));
        }
        let _ = self.n.revert(x);
        let count = self.n.total();
        let ghost i0 = first_eq(h0, x@);
        let ghost h1 = h0.remove(i0);
        if count == 0 {
            self.mean = Rat::zero();
        } else {
            let kr = Rat::from_i64(count as i64);
            let t = x.sub(&self.mean);
            let u = t.div(&kr);
            let nm = self.mean.sub(&u);
            proof {
                let k1 = int_r(k - 1);
                assert(kr@ == k1);
                lemma_div_congr(t@, k1, sub_r(x@, m), k1);
                lemma_div_v(sub_r(x@, m), k1);
                lemma_eq_trans(u@, div_r(t@, k1), div_r(sub_r(x@, m), k1));
                lemma_sub_congr(m, u@, m, div_r(sub_r(x@, m), k1));
                lemma_rwf2(m, div_r(sub_r(x@, m), k1));
                lemma_eq_trans(nm@, sub_r(m, u@), sub_r(m, div_r(sub_r(x@, m), k1)));
                let w = sub_r(m, div_r(sub_r(x@, m), k1));
                lemma_mean_revert(m, x@, sum_of(h0), k);
                lemma_rwf2(sum_of(h0), x@);
                lemma_div_v(sub_r(sum_of(h0), x@), k1);
                lemma_eq_trans(nm@, w, div_r(sub_r(sum_of(h0), x@), k1));
                // replace the reverted representation by the stored entry
                lemma_sub_congr(sum_of(h0), x@, sum_of(h0), h0[i0]);
                lemma_rwf2(sum_of(h0), h0[i0]);
                lemma_div_congr(sub_r(sum_of(h0), x@), k1, sub_r(sum_of(h0), h0[i0]), k1);
                lemma_div_v(sub_r(sum_of(h0), h0[i0]), k1);
                lemma_eq_trans(
                    nm@,
                    div_r(sub_r(sum_of(h0), x@), k1),
                    div_r(sub_r(sum_of(h0), h0[i0]), k1),
                );
                lemma_sum_wf(h1);
                lemma_div_congr(sub_r(sum_of(h0), h0[i0]), k1, sum_of(h1), k1);
                lemma_div_v(sum_of(h1), k1);
                lemma_eq_trans(
                    nm@,
                    div_r(sub_r(sum_of(h0), h0[i0]), k1),
                    div_r(sum_of(h1), k1),
                );
            }
            self.mean = nm;
        }
        Ok(())
    }
}

impl Univariate for Mean {
    open spec fn inv(&self) -> bool {
        &&& self.n.inv()
        &&& all_wf(self.n.hist@)
        &&& (self.n.hist@.len() == 0 ==> rat_eq(self.mean@, int_r(0)))
        &&& (self.n.hist@.len() > 0 ==> rat_eq(
            self.mean@,
            div_r(sum_of(self.n.hist@), int_r(self.n.hist@.len() as int)),
        ))
    }

    open spec fn hist(&self) -> Seq<Ratio> {
        self.n.hist@
    }

    open spec fn can_update(&self, x: Ratio) -> bool {
        &&& self.n.can_update(x)
        &&& sub_fits(x, self.mean@)
        &&& div_fits(sub_v(x, self.mean@), int_r(self.n.hist@.len() + 1 as int))
        &&& add_fits(self.mean@, div_v(sub_v(x, self.mean@), int_r(self.n.hist@.len() + 1 as int)))
    }

    open spec fn can_get(&self) -> bool {
        true
    }

    open spec fn stat(&self) -> Ratio {
        if self.n.hist@.len() == 0 {
            int_r(0)
        } else {
            div_r(sum_of(self.n.hist@), int_r(self.n.hist@.len() as int))
        }
    }

    fn update(&mut self, x: &Rat) {
        self.advance(x);
    }

    fn get(&self) -> (r: Rat) {
        self.mean
    }
}

impl Revertable for Mean {
    open spec fn can_revert(&self, x: Ratio) -> bool {
        self.n.hist@.len() <= 1 || {
            &&& sub_fits(x, self.mean@)
            &&& div_fits(sub_v(x, self.mean@), int_r(self.n.hist@.len() - 1))
            &&& sub_fits(self.mean@, div_v(sub_v(x, self.mean@), int_r(self.n.hist@.len() - 1)))
        }
    }

    open spec fn can_cycle(&self, e: Ratio, x: Ratio) -> bool {
        &&& self.can_revert(e)
        &&& sub_fits(x, self.mean_after_revert(e))
        &&& div_fits(sub_v(x, self.mean_after_revert(e)), int_r(self.n.hist@.len() as int))
        &&& add_fits(
            self.mean_after_revert(e),
            div_v(sub_v(x, self.mean_after_revert(e)), int_r(self.n.hist@.len() as int)),
        )
    }

    proof fn cycle_implies_revert(&self, e: Ratio, x: Ratio) {
    }

    fn revert(&mut self, x: &Rat) -> (r: Result<(), Error>) {
        let r = self.retreat(x);
        proof {
            if old(self).n.hist@.len() > 0 {
                lemma_first_eq(old(self).n.hist@, x@);
                assert(self.n.hist@.len() == old(self).n.hist@.len() - 1);
                assert forall|y: Ratio| old(self).can_cycle(x@, y) implies self.can_update(
                    y,
                ) by {
                    assert(self.mean@ == old(self).mean_after_revert(x@));
                }
            }
        }
        r
    }
}

impl RollableUnivariate for Mean {

}

} // verus!
