//! Exponentially weighted mean.

use vstd::prelude::*;

verus! {

use crate::rat::Rat;
use crate::ratio::{add_fits, add_r, add_v, all_wf, int_r, lemma_add_congr, lemma_eq_trans,
    lemma_mul_congr, lemma_rwf2, mul_fits, mul_r, mul_v, rat_eq, rwf, sub_fits, sub_r, sub_v,
    Ratio};
use crate::stats::Univariate;

/// The exponentially weighted mean of a stream: zero before any observation,
/// reset to the observation while the state is zero-valued, and otherwise
/// the blend `alpha * x + (1 - alpha) * mean`.  The zero test is the
/// seeding rule: it takes a zero-valued running blend as "nothing seen yet",
/// so a stream whose blend passes through exactly zero re-seeds at the next
/// observation.
pub open spec fn ew_of(alpha: Ratio, s: Seq<Ratio>) -> Ratio
    decreases s.len(),
{
    if s.len() == 0 {
        int_r(0)
    } else if rat_eq(ew_of(alpha, s.drop_last()), int_r(0)) {
        s.last()
    } else {
        add_r(mul_r(alpha, s.last()), mul_r(sub_r(int_r(1), alpha), ew_of(alpha, s.drop_last())))
    }
}

/// The exponentially weighted mean stays well-formed.
pub proof fn lemma_ew_wf(alpha: Ratio, s: Seq<Ratio>)
    requires
        rwf(alpha),
        all_wf(s),
    ensures
        rwf(ew_of(alpha, s)),
    decreases s.len(),
{
    if s.len() > 0 {
        assert(all_wf(s.drop_last()));
        lemma_ew_wf(alpha, s.drop_last());
        lemma_rwf2(int_r(1), alpha);
        lemma_rwf2(alpha, s.last());
        lemma_rwf2(sub_r(int_r(1), alpha), ew_of(alpha, s.drop_last()));
        lemma_rwf2(
            mul_r(alpha, s.last()),
            mul_r(sub_r(int_r(1), alpha), ew_of(alpha, s.drop_last())),
        );
    }
}

/// Exponential moving average with smoothing factor `alpha`.  The stored
/// value is proved equal to the exact blend of the whole history.
pub struct EWMean {
    pub mean: Rat,
    pub alpha: Rat,
    pub hist: Ghost<Seq<Ratio>>,
}

impl EWMean {
    /// A fresh accumulator with the given smoothing factor.
    pub fn new(alpha: &Rat) -> (r: EWMean)
        ensures
            r.inv(),
            r.hist() == Seq::<Ratio>::empty(),
            r.mean@ == int_r(0),
            r.alpha == *alpha,
    {
        EWMean { mean: Rat::zero(), alpha: *alpha, hist: Ghost(Seq::empty()) }
    }

    /// The representation one update stores.
    pub open spec fn mean_after(&self, x: Ratio) -> Ratio {
        if rat_eq(self.mean@, int_r(0)) {
            x
        } else {
            add_v(
                mul_v(self.alpha@, x),
                mul_v(sub_v(int_r(1), self.alpha@), self.mean@),
            )
        }
    }

    /// Incorporates one observation, promising the exact representation of
    /// the new state.
    pub fn blend(&mut self, x: &Rat)
        requires
            old(self).inv(),
            old(self).can_update(x@),
        ensures
            final(self).inv(),
            final(self).hist@ == old(self).hist@.push(x@),
            final(self).alpha == old(self).alpha,
            final(self).mean@ == old(self).mean_after(x@),
    {
        let ghost h0 = self.hist@;
        let ghost a = self.alpha@;
        let ghost m0 = self.mean@;
        proof {
            use_type_invariant(&self.alpha);
            Rat::lemma_inv_in64(self.alpha);
            use_type_invariant(&self.mean);
            Rat::lemma_inv_in64(self.mean);
            use_type_invariant(&*x);
            Rat::lemma_inv_in64(*x);
            assert(h0.push(x@).drop_last() =~= h0);
            lemma_ew_wf(a, h0);
        }
        let zero = Rat::zero();
        if self.mean.eq_val(&zero) {
            proof {
                lemma_eq_trans(ew_of(a, h0), m0, int_r(0));
            }
            self.mean = *x;
        } else {
            proof {
                if rat_eq(ew_of(a, h0), int_r(0)) {
                    lemma_eq_trans(m0, ew_of(a, h0), int_r(0));
                }
            }
            let p = self.alpha.mul(x);
            let q = Rat::from_int(1).sub(&self.alpha).mul(&self.mean);
            let nm = p.add(&q);
            proof {
                let e0 = ew_of(a, h0);
                lemma_rwf2(int_r(1), a);
                lemma_rwf2(a, x@);
                lemma_rwf2(sub_r(int_r(1), a), e0);
                lemma_rwf2(sub_r(int_r(1), a), m0);
                lemma_mul_congr(sub_v(int_r(1), a), m0, sub_r(int_r(1), a), e0);
                lemma_eq_trans(
                    q@,
                    mul_r(sub_v(int_r(1), a), m0),
                    mul_r(sub_r(int_r(1), a), e0),
                );
                lemma_add_congr(p@, q@, mul_r(a, x@), mul_r(sub_r(int_r(1), a), e0));
                lemma_rwf2(mul_r(a, x@), mul_r(sub_r(int_r(1), a), e0));
                lemma_eq_trans(
                    nm@,
                    add_r(p@, q@),
                    add_r(mul_r(a, x@), mul_r(sub_r(int_r(1), a), e0)),
                );
            }
            self.mean = nm;
        }
        proof {
            self.hist@ = self.hist@.push(x@);
        }
    }
}

impl Default for EWMean {
    /// A fresh accumulator with the customary smoothing factor of one half.
    fn default() -> (r: EWMean)
        ensures
            r.inv(),
            r.hist() == Seq::<Ratio>::empty(),
            r.alpha@ == (Ratio { n: 1, d: 2 }),
    {
        let half = match Rat::new(1, 2) {
            Some(v) => v,
            None => {
                proof {
                    assert(false);
                }
                Rat::zero()
            },
        };
        EWMean::new(&half)
    }
}

impl Univariate for EWMean {
    open spec fn inv(&self) -> bool {
        &&& all_wf(self.hist@)
        &&& rat_eq(self.mean@, ew_of(self.alpha@, self.hist@))
    }

    open spec fn hist(&self) -> Seq<Ratio> {
        self.hist@
    }

    open spec fn can_update(&self, x: Ratio) -> bool {
        rat_eq(self.mean@, int_r(0)) || {
            &&& mul_fits(self.alpha@, x)
            &&& sub_fits(int_r(1), self.alpha@)
            &&& mul_fits(sub_v(int_r(1), self.alpha@), self.mean@)
            &&& add_fits(mul_v(self.alpha@, x), mul_v(sub_v(int_r(1), self.alpha@), self.mean@))
        }
    }

    open spec fn can_get(&self) -> bool {
        true
    }

    open spec fn stat(&self) -> Ratio {
        ew_of(self.alpha@, self.hist@)
    }

    fn update(&mut self, x: &Rat)
        ensures
            final(self).alpha == old(self).alpha,
    {
        self.blend(x);
    }

    fn get(&self) -> (r: Rat) {
        self.mean
    }
}

} // verus!
