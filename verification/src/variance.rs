//! Running sample variance by Welford's recurrence.

use vstd::prelude::*;

verus! {

use crate::mean::Mean;
use crate::rat::Rat;
use crate::ratio::{
    add_fits, add_r, add_v, all_wf, div_fits, div_r, div_v, int_r, lemma_add_congr, lemma_add_sub_cancel,
    lemma_div_congr, lemma_div_v, lemma_eq_trans, lemma_mul_comm_val, lemma_mul_congr,
    lemma_add_zero, lemma_mul_zero, lemma_rwf2, lemma_ssd_push, lemma_ssd_single, lemma_sub_add_cancel,
    lemma_sub_congr, lemma_sub_self, lemma_sub_zero, lemma_sum_push, lemma_sum_remove,
    lemma_sum_wf, lemma_welford_step, mul_fits, mul_r, mul_v, rat_eq, rwf, ssd_of, sub_fits, sub_r,
    rat_le, sub_v, sum_of, sumsq_of, Ratio,
};
use crate::stats::{first_eq, lemma_first_eq, Error, Revertable, RollableUnivariate, Univariate};

/// Maintains the unnormalized sum of squared deviations incrementally; `get`
/// divides by `n - ddof` (and reports zero while `n <= ddof`).  The state is
/// proved equal to the closed two-term form of the sum of squared deviations
/// at every step.
pub struct Variance {
    pub mean: Mean,
    pub ddof: u32,
    pub state: Rat,
}

impl Variance {
    /// A fresh variance with the given delta degrees of freedom.
    pub fn new(ddof: u32) -> (r: Variance)
        ensures
            r.inv(),
            r.hist() == Seq::<Ratio>::empty(),
            r.ddof == ddof,
    {
        Variance { mean: Mean::new(), ddof, state: Rat::zero() }
    }

    /// The representation of the state after an update with `x`.
    pub open spec fn state_after_update(&self, x: Ratio) -> Ratio {
        add_v(
            self.state@,
            mul_v(sub_v(x, self.mean.mean@), sub_v(x, self.mean.mean_after_update(x))),
        )
    }

    /// The representation of the state after a successful revert of `e`.
    pub open spec fn state_after_revert(&self, e: Ratio) -> Ratio {
        sub_v(
            self.state@,
            mul_v(sub_v(e, self.mean.mean@), sub_v(e, self.mean.mean_after_revert(e))),
        )
    }
}

impl Variance {
    /// Incorporates one observation when its arithmetic stays representable,
    /// reporting whether it did; host code can call this without evaluating
    /// the specification-level premise.
    pub fn try_update(&mut self, x: &Rat) -> (r: bool)
        requires
            old(self).inv(),
        ensures
            final(self).inv(),
            r <==> old(self).can_update(x@),
            r ==> final(self).hist() == old(self).hist().push(x@),
            !r ==> *final(self) == *old(self),
    {
        if self.mean.n.total() >= i64::MAX as u64 {
            return false;
        }
        let kr = Rat::from_i64(self.mean.n.total() as i64 + 1);
        let t = match x.checked_sub(&self.mean.mean) {
            Some(v) => v,
            None => { return false },
        };
        let u = match t.checked_div(&kr) {
            Some(v) => v,
            None => { return false },
        };
        let nm = match self.mean.mean.checked_add(&u) {
            Some(v) => v,
            None => { return false },
        };
        let d1 = match x.checked_sub(&self.mean.mean) {
            Some(v) => v,
            None => { return false },
        };
        let d2 = match x.checked_sub(&nm) {
            Some(v) => v,
            None => { return false },
        };
        let p = match d1.checked_mul(&d2) {
            Some(v) => v,
            None => { return false },
        };
        match self.state.checked_add(&p) {
            Some(_) => {
                self.update(x);
                true
            },
            None => false,
        }
    }
}

impl Default for Variance {
    /// A fresh variance with one delta degree of freedom.
    fn default() -> (r: Variance)
        ensures
            r.inv(),
            r.hist() == Seq::<Ratio>::empty(),
            r.ddof == 1,
    {
        Variance::new(1)
    }
}

impl Univariate for Variance {
    open spec fn inv(&self) -> bool {
        &&& self.mean.inv()
        &&& rat_eq(self.state@, ssd_of(self.mean.n.hist@))
    }

    open spec fn hist(&self) -> Seq<Ratio> {
        self.mean.n.hist@
    }

    open spec fn can_update(&self, x: Ratio) -> bool {
        &&& self.mean.can_update(x)
        &&& sub_fits(x, self.mean.mean@)
        &&& sub_fits(x, self.mean.mean_after_update(x))
        &&& mul_fits(sub_v(x, self.mean.mean@), sub_v(x, self.mean.mean_after_update(x)))
        &&& add_fits(
            self.state@,
            mul_v(sub_v(x, self.mean.mean@), sub_v(x, self.mean.mean_after_update(x))),
        )
    }

    open spec fn can_get(&self) -> bool {
        self.mean.n.hist@.len() <= self.ddof || div_fits(
            self.state@,
            int_r(self.mean.n.hist@.len() - self.ddof),
        )
    }

    open spec fn stat(&self) -> Ratio {
        if self.mean.n.hist@.len() > self.ddof {
            div_r(ssd_of(self.mean.n.hist@), int_r(self.mean.n.hist@.len() - self.ddof))
        } else {
            int_r(0)
        }
    }

    fn update(&mut self, x: &Rat)
        ensures
            final(self).ddof == old(self).ddof,
    {
        let ghost h0 = self.mean.n.hist@;
        let ghost m0 = self.mean.mean@;
        let ghost st = self.state@;
        let ghost k = h0.len() + 1 as int;
        proof {
            use_type_invariant(&self.state);
            Rat::lemma_inv_in64(self.state);
            use_type_invariant(&*x);
            Rat::lemma_inv_in64(*x);
            lemma_sum_wf(h0);
        }
        let mo = self.mean.mean;
        proof {
            use_type_invariant(&mo);
            Rat::lemma_inv_in64(mo);
        }
        self.mean.advance(x);
        let mn = self.mean.mean;
        let d1 = x.sub(&mo);
        let d2 = x.sub(&mn);
        let p = d1.mul(&d2);
        let ns = self.state.add(&p);
        proof {
            use_type_invariant(&mn);
            Rat::lemma_inv_in64(mn);
            let h1 = h0.push(x@);
            lemma_sum_push(h0, x@);
            lemma_sum_wf(h1);
            if h0.len() == 0 {
                // the single observation contributes nothing: the second
                // deviation is zero
                assert(sum_of(h0) == int_r(0));
                assert(rat_eq(div_r(add_r(int_r(0), x@), int_r(1)), x@)) by (nonlinear_arith) {}
                lemma_div_v(sum_of(h1), int_r(1));
                lemma_eq_trans(mn@, div_r(sum_of(h1), int_r(1)), x@);
                lemma_sub_congr(x@, mn@, x@, x@);
                lemma_sub_self(x@, x@);
                lemma_rwf2(x@, x@);
                lemma_eq_trans(d2@, sub_r(x@, mn@), sub_r(x@, x@));
                lemma_eq_trans(d2@, sub_r(x@, x@), int_r(0));
                lemma_mul_zero(d1@, d2@);
                lemma_eq_trans(p@, mul_r(d1@, d2@), int_r(0));
                assert(rat_eq(st, int_r(0)));
                lemma_add_zero(st, p@);
                lemma_rwf2(st, p@);
                lemma_eq_trans(ns@, add_r(st, p@), int_r(0));
                lemma_ssd_single(h1);
                lemma_rwf2(sum_of(h1), sum_of(h1));
                lemma_div_v(mul_r(sum_of(h1), sum_of(h1)), int_r(1));
                lemma_rwf2(sumsq_of(h1), div_r(mul_r(sum_of(h1), sum_of(h1)), int_r(1)));
                lemma_eq_trans(ns@, int_r(0), ssd_of(h1));
            } else {
                let mo_c = div_r(sum_of(h0), int_r(k - 1));
                let mn_c = div_r(sum_of(h1), int_r(k));
                lemma_div_v(sum_of(h0), int_r(k - 1));
                lemma_div_v(sum_of(h1), int_r(k));
                lemma_sub_congr(x@, m0, x@, mo_c);
                lemma_sub_congr(x@, mn@, x@, mn_c);
                lemma_rwf2(x@, mo_c);
                lemma_rwf2(x@, mn_c);
                lemma_eq_trans(d1@, sub_r(x@, m0), sub_r(x@, mo_c));
                lemma_eq_trans(d2@, sub_r(x@, mn@), sub_r(x@, mn_c));
                lemma_mul_congr(d1@, d2@, sub_r(x@, mo_c), sub_r(x@, mn_c));
                lemma_rwf2(sub_r(x@, mo_c), sub_r(x@, mn_c));
                lemma_eq_trans(p@, mul_r(d1@, d2@), mul_r(sub_r(x@, mo_c), sub_r(x@, mn_c)));
                let inc = mul_r(sub_r(x@, mo_c), sub_r(x@, mn_c));
                // state + increment tracks the closed form
                lemma_rwf2(sum_of(h0), sum_of(h0));
                lemma_div_v(mul_r(sum_of(h0), sum_of(h0)), int_r(k - 1));
                lemma_rwf2(sumsq_of(h0), div_r(mul_r(sum_of(h0), sum_of(h0)), int_r(k - 1)));
                lemma_add_congr(st, p@, ssd_of(h0), inc);
                lemma_rwf2(ssd_of(h0), inc);
                lemma_eq_trans(ns@, add_r(st, p@), add_r(ssd_of(h0), inc));
                lemma_ssd_push(h0, x@);
                lemma_rwf2(sum_of(h1), sum_of(h1));
                lemma_div_v(mul_r(sum_of(h1), sum_of(h1)), int_r(k));
                lemma_rwf2(sumsq_of(h1), div_r(mul_r(sum_of(h1), sum_of(h1)), int_r(k)));
                lemma_eq_trans(ns@, add_r(ssd_of(h0), inc), ssd_of(h1));
            }
        }
        self.state = ns;
    }

    fn get(&self) -> (r: Rat) {
        let len = self.mean.n.total();
        if len > self.ddof as u64 {
            let dr = Rat::from_i64((len - self.ddof as u64) as i64);
            let r = self.state.div(&dr);
            proof {
                use_type_invariant(&self.state);
                Rat::lemma_inv_in64(self.state);
                let h = self.mean.n.hist@;
                let dd = int_r(h.len() - self.ddof);
                assert(dr@ == dd);
                lemma_sum_wf(h);
                lemma_rwf2(sum_of(h), sum_of(h));
                lemma_div_v(mul_r(sum_of(h), sum_of(h)), int_r(h.len() as int));
                lemma_rwf2(sumsq_of(h), div_r(mul_r(sum_of(h), sum_of(h)), int_r(h.len() as int)));
                lemma_div_congr(self.state@, dd, ssd_of(h), dd);
                lemma_div_v(ssd_of(h), dd);
                lemma_eq_trans(r@, div_r(self.state@, dd), div_r(ssd_of(h), dd));
            }
            r
        } else {
            Rat::zero()
        }
    }
}

impl Revertable for Variance {
    open spec fn can_revert(&self, x: Ratio) -> bool {
        self.mean.n.hist@.len() == 0 || {
            &&& self.mean.can_revert(x)
            &&& sub_fits(x, self.mean.mean@)
            &&& sub_fits(x, self.mean.mean_after_revert(x))
            &&& mul_fits(sub_v(x, self.mean.mean@), sub_v(x, self.mean.mean_after_revert(x)))
            &&& sub_fits(
                self.state@,
                mul_v(sub_v(x, self.mean.mean@), sub_v(x, self.mean.mean_after_revert(x))),
            )
        }
    }

    open spec fn can_cycle(&self, e: Ratio, x: Ratio) -> bool {
        let m1 = self.mean.mean_after_revert(e);
        let s1 = self.state_after_revert(e);
        let len = self.mean.n.hist@.len();
        let m2 = add_v(m1, div_v(sub_v(x, m1), int_r(len as int)));
        &&& self.can_revert(e)
        &&& sub_fits(x, m1)
        &&& div_fits(sub_v(x, m1), int_r(len as int))
        &&& add_fits(m1, div_v(sub_v(x, m1), int_r(len as int)))
        &&& sub_fits(x, m2)
        &&& mul_fits(sub_v(x, m1), sub_v(x, m2))
        &&& add_fits(s1, mul_v(sub_v(x, m1), sub_v(x, m2)))
    }

    proof fn cycle_implies_revert(&self, e: Ratio, x: Ratio) {
    }

    fn revert(&mut self, x: &Rat) -> (r: Result<(), Error>) {
        let ghost h0 = self.mean.n.hist@;
        let ghost m0 = self.mean.mean@;
        let ghost st = self.state@;
        let ghost k = h0.len() as int;
        if self.mean.n.total() == 0 {
            return Err(Error::RevertUnderflow);
        }
        proof {
            use_type_invariant(&self.state);
            Rat::lemma_inv_in64(self.state);
            use_type_invariant(&*x);
            Rat::lemma_inv_in64(*x);
            lemma_first_eq(h0, x@);
            lemma_sum_wf(h0);
            lemma_sum_remove(h0, first_eq(h0, x@));
        }
        let mo = self.mean.mean;
        proof {
            use_type_invariant(&mo);
            Rat::lemma_inv_in64(mo);
        }
        let _ = self.mean.retreat(x);
        let mn = self.mean.mean;
        let d1 = x.sub(&mo);
        let d2 = x.sub(&mn);
        let p = d1.mul(&d2);
        let ns = self.state.sub(&p);
        proof {
            use_type_invariant(&mn);
            Rat::lemma_inv_in64(mn);
            let ghost i0 = first_eq(h0, x@);
            let ghost h1 = h0.remove(i0);
            assert(all_wf(h1));
            lemma_sum_wf(h1);
            if h0.len() == 1 {
                // removing the only observation: the first deviation is zero
                assert(h0[0] == h0[i0]);
                assert(sum_of(h0) == add_r(int_r(0), h0[0]));
                assert(rat_eq(div_r(add_r(int_r(0), h0[0]), int_r(1)), h0[0]))
                    by (nonlinear_arith) {}
                lemma_div_v(sum_of(h0), int_r(1));
                lemma_eq_trans(m0, div_r(sum_of(h0), int_r(1)), h0[0]);
                lemma_eq_trans(m0, h0[0], x@);
                lemma_sub_congr(x@, m0, x@, x@);
                lemma_sub_self(x@, x@);
                lemma_rwf2(x@, x@);
                lemma_eq_trans(d1@, sub_r(x@, m0), sub_r(x@, x@));
                lemma_eq_trans(d1@, sub_r(x@, x@), int_r(0));
                lemma_mul_comm_val(d1@, d2@);
                lemma_rwf2(d1@, d2@);
                lemma_rwf2(d2@, d1@);
                lemma_eq_trans(p@, mul_r(d1@, d2@), mul_r(d2@, d1@));
                lemma_mul_zero(d2@, d1@);
                lemma_eq_trans(p@, mul_r(d2@, d1@), int_r(0));
                lemma_sub_zero(st, p@);
                lemma_ssd_single(h0);
                lemma_rwf2(st, p@);
                lemma_rwf2(sum_of(h0), sum_of(h0));
                lemma_div_v(mul_r(sum_of(h0), sum_of(h0)), int_r(1));
                lemma_rwf2(sumsq_of(h0), div_r(mul_r(sum_of(h0), sum_of(h0)), int_r(1)));
                lemma_eq_trans(ns@, sub_r(st, p@), st);
                lemma_eq_trans(ns@, st, ssd_of(h0));
                lemma_eq_trans(ns@, ssd_of(h0), int_r(0));
                assert(h1 =~= Seq::<Ratio>::empty());
            } else {
                let s1 = sum_of(h1);
                let q1 = sumsq_of(h1);
                lemma_welford_step(x@, s1, q1, k);
                // the sums of the shorter stream extend back to the original
                lemma_sub_congr(sum_of(h0), h0[i0], sum_of(h0), x@);
                lemma_rwf2(sum_of(h0), x@);
                lemma_rwf2(sum_of(h0), h0[i0]);
                lemma_eq_trans(s1, sub_r(sum_of(h0), h0[i0]), sub_r(sum_of(h0), x@));
                lemma_sub_add_cancel(sum_of(h0), x@);
                lemma_add_congr(s1, x@, sub_r(sum_of(h0), x@), x@);
                lemma_rwf2(sub_r(sum_of(h0), x@), x@);
                lemma_rwf2(s1, x@);
                lemma_eq_trans(add_r(s1, x@), add_r(sub_r(sum_of(h0), x@), x@), sum_of(h0));
                let xx = mul_r(x@, x@);
                let ii = mul_r(h0[i0], h0[i0]);
                lemma_mul_congr(h0[i0], h0[i0], x@, x@);
                lemma_rwf2(h0[i0], h0[i0]);
                lemma_rwf2(x@, x@);
                lemma_sub_congr(sumsq_of(h0), ii, sumsq_of(h0), xx);
                lemma_rwf2(sumsq_of(h0), ii);
                lemma_rwf2(sumsq_of(h0), xx);
                lemma_eq_trans(q1, sub_r(sumsq_of(h0), ii), sub_r(sumsq_of(h0), xx));
                lemma_sub_add_cancel(sumsq_of(h0), xx);
                lemma_add_congr(q1, xx, sub_r(sumsq_of(h0), xx), xx);
                lemma_rwf2(sub_r(sumsq_of(h0), xx), xx);
                lemma_rwf2(q1, xx);
                lemma_eq_trans(add_r(q1, xx), add_r(sub_r(sumsq_of(h0), xx), xx), sumsq_of(h0));
                // the right-hand side of the step lemma is the original state
                let kk = int_r(k);
                let k1 = int_r(k - 1);
                lemma_mul_congr(add_r(s1, x@), add_r(s1, x@), sum_of(h0), sum_of(h0));
                lemma_rwf2(add_r(s1, x@), add_r(s1, x@));
                lemma_rwf2(sum_of(h0), sum_of(h0));
                lemma_div_congr(
                    mul_r(add_r(s1, x@), add_r(s1, x@)),
                    kk,
                    mul_r(sum_of(h0), sum_of(h0)),
                    kk,
                );
                lemma_div_v(mul_r(add_r(s1, x@), add_r(s1, x@)), kk);
                lemma_div_v(mul_r(sum_of(h0), sum_of(h0)), kk);
                lemma_sub_congr(
                    add_r(q1, xx),
                    div_r(mul_r(add_r(s1, x@), add_r(s1, x@)), kk),
                    sumsq_of(h0),
                    div_r(mul_r(sum_of(h0), sum_of(h0)), kk),
                );
                lemma_rwf2(add_r(q1, xx), div_r(mul_r(add_r(s1, x@), add_r(s1, x@)), kk));
                lemma_rwf2(sumsq_of(h0), div_r(mul_r(sum_of(h0), sum_of(h0)), kk));
                let rhs = sub_r(add_r(q1, xx), div_r(mul_r(add_r(s1, x@), add_r(s1, x@)), kk));
                // the computed product equals the step increment
                let mo_c = div_r(add_r(s1, x@), kk);
                let mn_c = div_r(s1, k1);
                lemma_div_congr(sum_of(h0), kk, add_r(s1, x@), kk);
                lemma_div_v(sum_of(h0), kk);
                lemma_div_v(add_r(s1, x@), kk);
                lemma_eq_trans(m0, div_r(sum_of(h0), kk), mo_c);
                lemma_div_v(s1, k1);
                lemma_sub_congr(x@, m0, x@, mo_c);
                lemma_sub_congr(x@, mn@, x@, mn_c);
                lemma_rwf2(x@, mo_c);
                lemma_rwf2(x@, mn_c);
                lemma_eq_trans(d1@, sub_r(x@, m0), sub_r(x@, mo_c));
                lemma_eq_trans(d2@, sub_r(x@, mn@), sub_r(x@, mn_c));
                lemma_mul_congr(d1@, d2@, sub_r(x@, mo_c), sub_r(x@, mn_c));
                lemma_rwf2(sub_r(x@, mo_c), sub_r(x@, mn_c));
                lemma_eq_trans(p@, mul_r(d1@, d2@), mul_r(sub_r(x@, mo_c), sub_r(x@, mn_c)));
                lemma_mul_comm_val(sub_r(x@, mo_c), sub_r(x@, mn_c));
                let inc = mul_r(sub_r(x@, mn_c), sub_r(x@, mo_c));
                lemma_rwf2(sub_r(x@, mn_c), sub_r(x@, mo_c));
                lemma_eq_trans(p@, mul_r(sub_r(x@, mo_c), sub_r(x@, mn_c)), inc);
                // chain everything: state - increment is the shorter state
                let ssd1 = sub_r(q1, div_r(mul_r(s1, s1), k1));
                lemma_rwf2(s1, s1);
                lemma_div_v(mul_r(s1, s1), k1);
                lemma_rwf2(q1, div_r(mul_r(s1, s1), k1));
                lemma_rwf2(ssd1, inc);
                lemma_eq_trans(st, ssd_of(h0), rhs);
                lemma_eq_trans(st, rhs, add_r(ssd1, inc));
                lemma_sub_congr(st, p@, add_r(ssd1, inc), inc);
                lemma_rwf2(add_r(ssd1, inc), inc);
                lemma_add_sub_cancel(ssd1, inc);
                lemma_eq_trans(ns@, sub_r(st, p@), sub_r(add_r(ssd1, inc), inc));
                lemma_eq_trans(ns@, sub_r(add_r(ssd1, inc), inc), ssd1);
            }
        }
        self.state = ns;
        proof {
            if old(self).mean.n.hist@.len() > 0 {
                lemma_first_eq(old(self).mean.n.hist@, x@);
                assert forall|y: Ratio| old(self).can_cycle(x@, y) implies self.can_update(
                    y,
                ) by {
                    assert(self.mean.mean@ == old(self).mean.mean_after_revert(x@));
                    assert(self.state@ == old(self).state_after_revert(x@));
                }
            }
        }
        Ok(())
    }
}

impl RollableUnivariate for Variance {

}
/// The variance law: the reported sample variance of any stream is
/// non-negative.
pub proof fn lemma_variance_nonneg(v: &Variance)
    requires
        v.inv(),
    ensures
        rat_le(int_r(0), v.stat()),
{
    if v.mean.n.hist@.len() > v.ddof {
        crate::ratio::lemma_ssd_nonneg(v.mean.n.hist@);
        let a = ssd_of(v.mean.n.hist@);
        let m = v.mean.n.hist@.len() - v.ddof;
        assert(0 * (div_r(a, int_r(m as int)).d) <= (div_r(a, int_r(m as int)).n) * 1)
            by (nonlinear_arith)
            requires
                0 * a.d <= a.n * 1,
                1 <= m as int,
                div_r(a, int_r(m as int)) == (Ratio { n: a.n * 1, d: a.d * (m as int) }),
        {
        }
    }
}

} // verus!
