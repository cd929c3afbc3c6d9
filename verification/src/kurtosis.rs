//! Running excess kurtosis from the fourth-order central moments.

use vstd::prelude::*;

verus! {

use crate::moments::{cm_fits, CentralMoments};
use crate::rat::Rat;
use crate::ratio::{div_fits, div_v, int_r, mul_fits, mul_v, rat_eq, sub_fits, sub_v, Ratio};
use crate::stats::Univariate;

/// The biased kurtosis term `n * m4 / m2^2` (zero while `m2` is zero).
pub open spec fn kurt_base(c: CentralMoments) -> Ratio {
    if rat_eq(c.m2@, int_r(0)) {
        int_r(0)
    } else {
        div_v(mul_v(int_r(c.count.hist@.len() as int), c.m4@), mul_v(c.m2@, c.m2@))
    }
}

/// The reported kurtosis: the bias-corrected formula for `n > 3` when
/// correction is requested, excess kurtosis otherwise.
pub open spec fn kurt_stat(k: Kurtosis) -> Ratio {
    let n = k.central_moments.count.hist@.len() as int;
    let base = kurt_base(k.central_moments);
    if !k.bias && n > 3 {
        div_v(
            div_v(
                sub_v(
                    mul_v(sub_v(mul_v(int_r(n), int_r(n)), int_r(1)), base),
                    mul_v(int_r(3), mul_v(sub_v(int_r(n), int_r(1)), sub_v(int_r(n), int_r(1)))),
                ),
                int_r(n - 2),
            ),
            int_r(n - 3),
        )
    } else {
        sub_v(base, int_r(3))
    }
}

/// The arithmetic of one `get` stays representable.
pub open spec fn kurt_can_get(k: Kurtosis) -> bool {
    let n = k.central_moments.count.hist@.len() as int;
    let c = k.central_moments;
    let base = kurt_base(c);
    &&& (!rat_eq(c.m2@, int_r(0)) ==> mul_fits(c.m2@, c.m2@) && mul_fits(int_r(n), c.m4@)
        && div_fits(mul_v(int_r(n), c.m4@), mul_v(c.m2@, c.m2@)))
    &&& (if !k.bias && n > 3 {
        &&& mul_fits(int_r(n), int_r(n))
        &&& sub_fits(mul_v(int_r(n), int_r(n)), int_r(1))
        &&& mul_fits(sub_v(mul_v(int_r(n), int_r(n)), int_r(1)), base)
        &&& sub_fits(int_r(n), int_r(1))
        &&& mul_fits(sub_v(int_r(n), int_r(1)), sub_v(int_r(n), int_r(1)))
        &&& mul_fits(int_r(3), mul_v(sub_v(int_r(n), int_r(1)), sub_v(int_r(n), int_r(1))))
        &&& sub_fits(
            mul_v(sub_v(mul_v(int_r(n), int_r(n)), int_r(1)), base),
            mul_v(int_r(3), mul_v(sub_v(int_r(n), int_r(1)), sub_v(int_r(n), int_r(1)))),
        )
        &&& div_fits(
            sub_v(
                mul_v(sub_v(mul_v(int_r(n), int_r(n)), int_r(1)), base),
                mul_v(int_r(3), mul_v(sub_v(int_r(n), int_r(1)), sub_v(int_r(n), int_r(1)))),
            ),
            int_r(n - 2),
        )
        &&& div_fits(
            div_v(
                sub_v(
                    mul_v(sub_v(mul_v(int_r(n), int_r(n)), int_r(1)), base),
                    mul_v(
                        int_r(3),
                        mul_v(sub_v(int_r(n), int_r(1)), sub_v(int_r(n), int_r(1))),
                    ),
                ),
                int_r(n - 2),
            ),
            int_r(n - 3),
        )
    } else {
        sub_fits(base, int_r(3))
    })
}

/// Running kurtosis over the whole stream, from Welford's order-four
/// moments; `bias == false` applies the sample correction once more than
/// three observations arrived.
pub struct Kurtosis {
    pub bias: bool,
    pub central_moments: CentralMoments,
}

impl Kurtosis {
    /// A fresh accumulator; `bias == false` requests the corrected estimate.
    pub fn new(bias: bool) -> (r: Kurtosis)
        ensures
            r.inv(),
            r.hist() == Seq::<Ratio>::empty(),
            r.bias == bias,
    {
        Kurtosis { bias, central_moments: CentralMoments::new() }
    }
}

impl Default for Kurtosis {
    /// A fresh corrected (unbiased) kurtosis accumulator.
    fn default() -> (r: Kurtosis)
        ensures
            r.inv(),
            r.hist() == Seq::<Ratio>::empty(),
            r.bias == false,
    {
        Kurtosis::new(false)
    }
}

impl Univariate for Kurtosis {
    open spec fn inv(&self) -> bool {
        self.central_moments.count.inv()
    }

    open spec fn hist(&self) -> Seq<Ratio> {
        self.central_moments.count.hist@
    }

    open spec fn can_update(&self, x: Ratio) -> bool {
        cm_fits(self.central_moments, x)
    }

    open spec fn can_get(&self) -> bool {
        kurt_can_get(*self)
    }

    open spec fn stat(&self) -> Ratio {
        kurt_stat(*self)
    }

    fn update(&mut self, x: &Rat)
        ensures
            crate::moments::cm_stepped(
                old(self).central_moments,
                final(self).central_moments,
                x@,
            ),
            final(self).bias == old(self).bias,
    {
        self.central_moments.update(x);
    }

    fn get(&self) -> (r: Rat) {
        let zero = Rat::zero();
        let three = Rat::from_int(3);
        let one = Rat::from_int(1);
        let n = self.central_moments.count.total();
        let nr = Rat::from_i64(n as i64);
        let base = if !self.central_moments.m2.eq_val(&zero) {
            let m2sq = self.central_moments.m2.mul(&self.central_moments.m2);
            nr.mul(&self.central_moments.m4).div(&m2sq)
        } else {
            Rat::zero()
        };
        if !self.bias && n > 3 {
            let n2m1 = nr.mul(&nr).sub(&one);
            let term = n2m1.mul(&base);
            let nm1 = nr.sub(&one);
            let t2 = three.mul(&nm1.mul(&nm1));
            let nm2 = Rat::from_i64(n as i64 - 2);
            let nm3 = Rat::from_i64(n as i64 - 3);
            term.sub(&t2).div(&nm2).div(&nm3)
        } else {
            base.sub(&three)
        }
    }
}

} // verus!
