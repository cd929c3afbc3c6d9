//! Exponentially weighted variance.

use vstd::prelude::*;

verus! {

use crate::ewmean::{ew_of, lemma_ew_wf, EWMean};
use crate::rat::Rat;
use crate::ratio::{all_wf, int_r, lemma_eq_trans, lemma_mul_congr, lemma_rwf2, lemma_sub_congr,
    mul_fits, mul_r, mul_v, rat_eq, rwf, sub_fits, sub_r, sub_v, Ratio};
use crate::stats::Univariate;

/// The squares of a stream, with the exact representations the update
/// computes.
pub open spec fn squares(s: Seq<Ratio>) -> Seq<Ratio> {
    s.map_values(|v: Ratio| mul_v(v, v))
}

/// Exponentially weighted variance: the blend of the squares minus the
/// square of the blend, both with the same smoothing factor.
pub struct EWVariance {
    pub mean: EWMean,
    pub sq_mean: EWMean,
    pub alpha: Rat,
}

impl EWVariance {
    /// A fresh accumulator with the given smoothing factor.
    pub fn new(alpha: &Rat) -> (r: EWVariance)
        ensures
            r.inv(),
            r.hist() == Seq::<Ratio>::empty(),
            r.alpha == *alpha,
    {
        let r = EWVariance { mean: EWMean::new(alpha), sq_mean: EWMean::new(alpha), alpha: *alpha };
        proof {
            assert(squares(r.mean.hist@) =~= Seq::<Ratio>::empty());
        }
        r
    }
}

impl Default for EWVariance {
    /// A fresh accumulator with the customary smoothing factor of one half.
    fn default() -> (r: EWVariance)
        ensures
            r.inv(),
            r.hist() == Seq::<Ratio>::empty(),
            r.alpha@ == (Ratio { n: 1, d: 2 }),
    {
        let half = match Rat::new(1, 2) {
            Some(v) => v,
            None => {
                proof {
                    assert(false);
                }
                Rat::zero()
            },
        };
        EWVariance::new(&half)
    }
}

impl Univariate for EWVariance {
    open spec fn inv(&self) -> bool {
        &&& self.mean.inv()
        &&& self.sq_mean.inv()
        &&& self.sq_mean.alpha == self.mean.alpha
        &&& self.alpha == self.mean.alpha
        &&& self.sq_mean.hist@ == squares(self.mean.hist@)
    }

    open spec fn hist(&self) -> Seq<Ratio> {
        self.mean.hist@
    }

    open spec fn can_update(&self, x: Ratio) -> bool {
        &&& mul_fits(x, x)
        &&& self.mean.can_update(x)
        &&& self.sq_mean.can_update(mul_v(x, x))
    }

    open spec fn can_get(&self) -> bool {
        mul_fits(self.mean.mean@, self.mean.mean@) && sub_fits(
            self.sq_mean.mean@,
            mul_v(self.mean.mean@, self.mean.mean@),
        )
    }

    open spec fn stat(&self) -> Ratio {
        sub_r(
            ew_of(self.alpha@, squares(self.mean.hist@)),
            mul_r(ew_of(self.alpha@, self.mean.hist@), ew_of(self.alpha@, self.mean.hist@)),
        )
    }

    fn update(&mut self, x: &Rat)
        ensures
            final(self).alpha == old(self).alpha,
    {
        let xsq = x.mul(x);
        self.mean.blend(x);
        self.sq_mean.blend(&xsq);
        proof {
            assert(squares(self.mean.hist@) =~= squares(old(self).mean.hist@).push(
                mul_v(x@, x@),
            ));
        }
    }

    fn get(&self) -> (r: Rat) {
        let m = self.mean.mean;
        let s = self.sq_mean.mean;
        let msq = m.mul(&m);
        let r = s.sub(&msq);
        proof {
            use_type_invariant(&m);
            Rat::lemma_inv_in64(m);
            use_type_invariant(&s);
            Rat::lemma_inv_in64(s);
            use_type_invariant(&self.alpha);
            Rat::lemma_inv_in64(self.alpha);
            let a = self.alpha@;
            let h = self.mean.hist@;
            let e = ew_of(a, h);
            let esq = ew_of(a, squares(h));
            assert(all_wf(squares(h))) by {
                assert forall|i: int| 0 <= i < squares(h).len() implies rwf(
                    #[trigger] squares(h)[i],
                ) by {
                    assert(squares(h)[i] == mul_v(h[i], h[i]));
                    lemma_rwf2(h[i], h[i]);
                    crate::ratio::lemma_norm2(mul_r(h[i], h[i]).n, mul_r(h[i], h[i]).d);
                }
            }
            lemma_ew_wf(a, h);
            lemma_ew_wf(a, squares(h));
            lemma_mul_congr(m@, m@, e, e);
            lemma_rwf2(e, e);
            lemma_eq_trans(msq@, mul_r(m@, m@), mul_r(e, e));
            lemma_sub_congr(s@, msq@, esq, mul_r(e, e));
            lemma_rwf2(esq, mul_r(e, e));
            lemma_eq_trans(r@, sub_r(s@, msq@), sub_r(esq, mul_r(e, e)));
        }
        r
    }
}

} // verus!
