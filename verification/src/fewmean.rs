//! Fading exponentially weighted mean.

use vstd::prelude::*;

verus! {

use crate::rat::Rat;
use crate::ratio::{add_fits, add_r, add_v, all_wf, div_fits, div_r, int_r, lemma_add_congr,
    lemma_div_congr, lemma_div_wf, lemma_eq_trans, lemma_mul_congr, lemma_rwf2, lemma_sub_v,
    mul_fits, mul_r, mul_v, rat_eq, rwf, sub_fits, sub_r, sub_v, Ratio};
use crate::stats::Univariate;

/// The fading mean and its decaying weight sum over a stream: the first
/// observation seeds the mean with weight one; each later step decays the
/// weight sum by the fading factor and folds the observation in with weight
/// one.
pub open spec fn few_of(f: Ratio, s: Seq<Ratio>) -> (Ratio, Ratio)
    decreases s.len(),
{
    if s.len() == 0 {
        (int_r(0), int_r(0))
    } else {
        let prev = few_of(f, s.drop_last());
        if rat_eq(prev.1, int_r(0)) {
            (s.last(), int_r(1))
        } else {
            let w = mul_r(sub_r(int_r(1), f), prev.1);
            (
                div_r(add_r(mul_r(w, prev.0), s.last()), add_r(w, int_r(1))),
                add_r(w, int_r(1)),
            )
        }
    }
}

/// The fading fold stays well-formed.
pub proof fn lemma_few_wf(f: Ratio, s: Seq<Ratio>)
    requires
        rwf(f),
        all_wf(s),
    ensures
        rwf(few_of(f, s).0),
        rwf(few_of(f, s).1),
    decreases s.len(),
{
    if s.len() > 0 {
        assert(all_wf(s.drop_last()));
        lemma_few_wf(f, s.drop_last());
        let prev = few_of(f, s.drop_last());
        if !rat_eq(prev.1, int_r(0)) {
            lemma_rwf2(int_r(1), f);
            lemma_rwf2(sub_r(int_r(1), f), prev.1);
            let w = mul_r(sub_r(int_r(1), f), prev.1);
            lemma_rwf2(w, prev.0);
            lemma_rwf2(mul_r(w, prev.0), s.last());
            lemma_rwf2(w, int_r(1));
            lemma_div_wf(add_r(mul_r(w, prev.0), s.last()), add_r(w, int_r(1)));
        }
    }
}

/// Fading exponentially weighted mean: matches the plain mean over the first
/// observations and fades towards recent values, through a decaying weight
/// sum.
pub struct FEWMean {
    pub mean: Rat,
    pub fading_factor: Rat,
    pub weight_sum: Rat,
    pub hist: Ghost<Seq<Ratio>>,
}

impl FEWMean {
    /// A fresh accumulator with the given fading factor.
    pub fn new(fading_factor: &Rat) -> (r: FEWMean)
        ensures
            r.inv(),
            r.hist() == Seq::<Ratio>::empty(),
            r.fading_factor == *fading_factor,
    {
        FEWMean {
            mean: Rat::zero(),
            fading_factor: *fading_factor,
            weight_sum: Rat::zero(),
            hist: Ghost(Seq::empty()),
        }
    }
}

impl Default for FEWMean {
    /// A fresh accumulator with the customary fading factor of one percent.
    fn default() -> (r: FEWMean)
        ensures
            r.inv(),
            r.hist() == Seq::<Ratio>::empty(),
            r.fading_factor@ == (Ratio { n: 1, d: 100 }),
    {
        let f = match Rat::new(1, 100) {
            Some(v) => v,
            None => {
                proof {
                    assert(false);
                }
                Rat::zero()
            },
        };
        FEWMean::new(&f)
    }
}

impl Univariate for FEWMean {
    open spec fn inv(&self) -> bool {
        &&& all_wf(self.hist@)
        &&& rat_eq(self.mean@, few_of(self.fading_factor@, self.hist@).0)
        &&& rat_eq(self.weight_sum@, few_of(self.fading_factor@, self.hist@).1)
    }

    open spec fn hist(&self) -> Seq<Ratio> {
        self.hist@
    }

    open spec fn can_update(&self, x: Ratio) -> bool {
        rat_eq(self.weight_sum@, int_r(0)) || {
            let w = mul_v(sub_v(int_r(1), self.fading_factor@), self.weight_sum@);
            &&& sub_fits(int_r(1), self.fading_factor@)
            &&& mul_fits(sub_v(int_r(1), self.fading_factor@), self.weight_sum@)
            &&& mul_fits(w, self.mean@)
            &&& add_fits(mul_v(w, self.mean@), x)
            &&& add_fits(w, int_r(1))
            &&& div_fits(add_v(mul_v(w, self.mean@), x), add_v(w, int_r(1)))
        }
    }

    open spec fn can_get(&self) -> bool {
        true
    }

    open spec fn stat(&self) -> Ratio {
        few_of(self.fading_factor@, self.hist@).0
    }

    fn update(&mut self, x: &Rat)
        ensures
            final(self).fading_factor == old(self).fading_factor,
    {
        let ghost h0 = self.hist@;
        let ghost f = self.fading_factor@;
        let ghost m0 = self.mean@;
        let ghost ws0 = self.weight_sum@;
        proof {
            use_type_invariant(&self.fading_factor);
            Rat::lemma_inv_in64(self.fading_factor);
            use_type_invariant(&self.mean);
            Rat::lemma_inv_in64(self.mean);
            use_type_invariant(&self.weight_sum);
            Rat::lemma_inv_in64(self.weight_sum);
            use_type_invariant(&*x);
            Rat::lemma_inv_in64(*x);
            assert(h0.push(x@).drop_last() =~= h0);
            lemma_few_wf(f, h0);
        }
        let zero = Rat::zero();
        if self.weight_sum.eq_val(&zero) {
            proof {
                lemma_eq_trans(few_of(f, h0).1, ws0, int_r(0));
            }
            self.mean = *x;
            self.weight_sum = Rat::from_int(1);
        } else {
            proof {
                if rat_eq(few_of(f, h0).1, int_r(0)) {
                    lemma_eq_trans(ws0, few_of(f, h0).1, int_r(0));
                }
            }
            let one = Rat::from_int(1);
            let w = one.sub(&self.fading_factor).mul(&self.weight_sum);
            let num = w.mul(&self.mean).add(x);
            let den = w.add(&one);
            let nm = num.div(&den);
            proof {
                let prev = few_of(f, h0);
                let wc = mul_r(sub_r(int_r(1), f), prev.1);
                lemma_rwf2(int_r(1), f);
                lemma_rwf2(sub_r(int_r(1), f), prev.1);
                lemma_rwf2(sub_r(int_r(1), f), ws0);
                lemma_mul_congr(sub_v(int_r(1), f), ws0, sub_r(int_r(1), f), prev.1);
                lemma_eq_trans(w@, mul_r(sub_v(int_r(1), f), ws0), wc);
                lemma_rwf2(wc, prev.0);
                lemma_rwf2(w@, m0);
                lemma_mul_congr(w@, m0, wc, prev.0);
                lemma_eq_trans(mul_v(w@, m0), mul_r(w@, m0), mul_r(wc, prev.0));
                lemma_add_congr(mul_v(w@, m0), x@, mul_r(wc, prev.0), x@);
                lemma_rwf2(mul_r(wc, prev.0), x@);
                lemma_rwf2(mul_v(w@, m0), x@);
                lemma_eq_trans(
                    num@,
                    add_r(mul_v(w@, m0), x@),
                    add_r(mul_r(wc, prev.0), x@),
                );
                lemma_add_congr(w@, int_r(1), wc, int_r(1));
                lemma_rwf2(wc, int_r(1));
                lemma_rwf2(w@, int_r(1));
                lemma_eq_trans(den@, add_r(w@, int_r(1)), add_r(wc, int_r(1)));
                lemma_div_congr(num@, den@, add_r(mul_r(wc, prev.0), x@), add_r(wc, int_r(1)));
                lemma_div_wf(add_r(mul_r(wc, prev.0), x@), add_r(wc, int_r(1)));
                lemma_eq_trans(
                    nm@,
                    div_r(num@, den@),
                    div_r(add_r(mul_r(wc, prev.0), x@), add_r(wc, int_r(1))),
                );
            }
            self.mean = nm;
            self.weight_sum = den;
        }
        proof {
            self.hist@ = self.hist@.push(x@);
        }
    }

    fn get(&self) -> (r: Rat) {
        self.mean
    }
}

} // verus!
