//! Running sample covariance of a stream of pairs.

use vstd::prelude::*;

verus! {

use crate::mean::Mean;
use crate::rat::Rat;
use crate::ratio::{add_fits, add_r, add_v, all_wf, div_fits, div_r, div_v, int_r,
    lemma_add_congr, lemma_add_zero, lemma_div_congr, lemma_div_v, lemma_eq_trans,
    lemma_mul_congr, lemma_mul_zero, lemma_rwf2, lemma_sub_congr, lemma_sub_self, lemma_sum_push,
    lemma_sum_wf, lemma_welford_cross, mul_fits, mul_r, mul_v, rat_eq, rwf, sub_fits, sub_r,
    sub_v, sum_of, Ratio};
use crate::stats::{Bivariate, Univariate};

/// The first coordinates of a pair stream.
pub open spec fn xs(s: Seq<(Ratio, Ratio)>) -> Seq<Ratio> {
    s.map_values(|p: (Ratio, Ratio)| p.0)
}

/// The second coordinates of a pair stream.
pub open spec fn ys(s: Seq<(Ratio, Ratio)>) -> Seq<Ratio> {
    s.map_values(|p: (Ratio, Ratio)| p.1)
}

/// The exact sum of coordinate products of a pair stream.
pub open spec fn csum_of(s: Seq<(Ratio, Ratio)>) -> Ratio
    decreases s.len(),
{
    if s.len() == 0 {
        int_r(0)
    } else {
        add_r(csum_of(s.drop_last()), mul_r(s.last().0, s.last().1))
    }
}

/// The unnormalized cross deviation sum, in the "sum of products minus
/// product of sums over count" form.
pub open spec fn csd_of(s: Seq<(Ratio, Ratio)>) -> Ratio {
    if s.len() == 0 {
        int_r(0)
    } else {
        sub_r(csum_of(s), div_r(mul_r(sum_of(xs(s)), sum_of(ys(s))), int_r(s.len() as int)))
    }
}

/// The divisor of the covariance: `n - ddof`, floored at one.
pub open spec fn cov_den(len: int, ddof: int) -> int {
    if len - ddof >= 1 {
        len - ddof
    } else {
        1
    }
}

/// Every pair of the stream is well-formed.
pub open spec fn all_wf2(s: Seq<(Ratio, Ratio)>) -> bool {
    forall|i: int| 0 <= i < s.len() ==> rwf((#[trigger] s[i]).0) && rwf(s[i].1)
}

/// Cross sums of well-formed pair streams are well-formed.
proof fn lemma_csum_wf(s: Seq<(Ratio, Ratio)>)
    requires
        all_wf2(s),
    ensures
        rwf(csum_of(s)),
    decreases s.len(),
{
    if s.len() > 0 {
        assert(all_wf2(s.drop_last()));
        lemma_csum_wf(s.drop_last());
        lemma_rwf2(s.last().0, s.last().1);
        lemma_rwf2(csum_of(s.drop_last()), mul_r(s.last().0, s.last().1));
    }
}

/// The cross deviation sum of a one-pair stream is zero.
proof fn lemma_csd_single(h: Seq<(Ratio, Ratio)>)
    requires
        h.len() == 1,
        rwf(h[0].0),
        rwf(h[0].1),
    ensures
        rat_eq(csd_of(h), int_r(0)),
{
    let x = h[0].0;
    let y = h[0].1;
    assert(h.drop_last() =~= Seq::<(Ratio, Ratio)>::empty());
    assert(xs(h) =~= Seq::<Ratio>::empty().push(x));
    assert(ys(h) =~= Seq::<Ratio>::empty().push(y));
    assert(sum_of(Seq::<Ratio>::empty()) == int_r(0));
    assert(csum_of(Seq::<(Ratio, Ratio)>::empty()) == int_r(0));
    lemma_sum_push(Seq::<Ratio>::empty(), x);
    lemma_sum_push(Seq::<Ratio>::empty(), y);
    assert(sum_of(xs(h)) == add_r(int_r(0), x));
    assert(sum_of(ys(h)) == add_r(int_r(0), y));
    assert(csum_of(h) == add_r(int_r(0), mul_r(x, y)));
    let sx = add_r(int_r(0), x);
    let sy = add_r(int_r(0), y);
    assert((csum_of(h).n * (mul_r(sx, sy).d * 1) - (mul_r(sx, sy).n * 1) * csum_of(h).d) * 1 == 0
        * (csd_of(h).d)) by (nonlinear_arith)
        requires
            csum_of(h) == add_r(int_r(0), mul_r(x, y)),
            sx == add_r(int_r(0), x),
            sy == add_r(int_r(0), y),
    {
    }
}

/// One covariance step over whole histories: adding the cross increment
/// `(x - mean_x before) * (y - mean_y after)` to the running cross deviation
/// sum tracks the pair stream exactly.
proof fn lemma_csd_push(h: Seq<(Ratio, Ratio)>, x: Ratio, y: Ratio)
    requires
        all_wf2(h),
        rwf(x),
        rwf(y),
        h.len() > 0,
    ensures
        rat_eq(
            add_r(
                csd_of(h),
                mul_r(
                    sub_r(x, div_r(sum_of(xs(h)), int_r(h.len() as int))),
                    sub_r(y, div_r(sum_of(ys(h.push((x, y)))), int_r(h.len() + 1 as int))),
                ),
            ),
            csd_of(h.push((x, y))),
        ),
{
    let h1 = h.push((x, y));
    assert(xs(h1) =~= xs(h).push(x));
    assert(ys(h1) =~= ys(h).push(y));
    assert(all_wf(xs(h))) by {
        assert forall|i: int| 0 <= i < xs(h).len() implies rwf(#[trigger] xs(h)[i]) by {
            assert(xs(h)[i] == h[i].0);
        }
    }
    assert(all_wf(ys(h))) by {
        assert forall|i: int| 0 <= i < ys(h).len() implies rwf(#[trigger] ys(h)[i]) by {
            assert(ys(h)[i] == h[i].1);
        }
    }
    lemma_sum_push(xs(h), x);
    lemma_sum_push(ys(h), y);
    lemma_sum_wf(xs(h));
    lemma_sum_wf(ys(h));
    lemma_csum_wf(h);
    assert(h1.drop_last() =~= h);
    assert(csum_of(h1) == add_r(csum_of(h), mul_r(x, y)));
    lemma_welford_cross(x, y, sum_of(xs(h)), sum_of(ys(h)), csum_of(h), h.len() + 1 as int);
}

/// Running covariance: two running means and the cross deviation sum,
/// normalized by `max(1, n - ddof)`.  The cross sum is proved equal to the
/// closed two-term form at every step.
pub struct Covariance {
    pub ddof: u32,
    pub mean_x: Mean,
    pub mean_y: Mean,
    pub c: Rat,
    pub cov: Rat,
    pub pairs: Ghost<Seq<(Ratio, Ratio)>>,
}

impl Covariance {
    /// A fresh covariance with the given delta degrees of freedom.
    pub fn new(ddof: u32) -> (r: Covariance)
        ensures
            r.inv(),
            r.hist2() == Seq::<(Ratio, Ratio)>::empty(),
            r.ddof == ddof,
    {
        let r = Covariance {
            ddof,
            mean_x: Mean::new(),
            mean_y: Mean::new(),
            c: Rat::zero(),
            cov: Rat::zero(),
            pairs: Ghost(Seq::empty()),
        };
        proof {
            assert(xs(r.pairs@) =~= Seq::<Ratio>::empty());
            assert(ys(r.pairs@) =~= Seq::<Ratio>::empty());
        }
        r
    }
}

impl Default for Covariance {
    /// A fresh covariance with one delta degree of freedom.
    fn default() -> (r: Covariance)
        ensures
            r.inv(),
            r.hist2() == Seq::<(Ratio, Ratio)>::empty(),
            r.ddof == 1,
    {
        Covariance::new(1)
    }
}

impl Bivariate for Covariance {
    open spec fn inv(&self) -> bool {
        &&& self.mean_x.inv()
        &&& self.mean_y.inv()
        &&& self.mean_x.n.hist@ == xs(self.pairs@)
        &&& self.mean_y.n.hist@ == ys(self.pairs@)
        &&& all_wf2(self.pairs@)
        &&& rat_eq(self.c@, csd_of(self.pairs@))
        &&& (self.pairs@.len() == 0 ==> rat_eq(self.cov@, int_r(0)))
        &&& (self.pairs@.len() > 0 ==> rat_eq(
            self.cov@,
            div_r(csd_of(self.pairs@), int_r(cov_den(self.pairs@.len() as int, self.ddof as int))),
        ))
    }

    open spec fn hist2(&self) -> Seq<(Ratio, Ratio)> {
        self.pairs@
    }

    open spec fn can_update(&self, x: Ratio, y: Ratio) -> bool {
        let dx = sub_v(x, self.mean_x.mean@);
        let dy = sub_v(y, self.mean_y.mean_after_update(y));
        &&& self.mean_x.can_update(x)
        &&& self.mean_y.can_update(y)
        &&& sub_fits(x, self.mean_x.mean@)
        &&& sub_fits(y, self.mean_y.mean_after_update(y))
        &&& mul_fits(dx, dy)
        &&& add_fits(self.c@, mul_v(dx, dy))
        &&& div_fits(
            add_v(self.c@, mul_v(dx, dy)),
            int_r(cov_den(self.pairs@.len() + 1 as int, self.ddof as int)),
        )
    }

    open spec fn stat(&self) -> Ratio {
        if self.pairs@.len() == 0 {
            int_r(0)
        } else {
            div_r(csd_of(self.pairs@), int_r(cov_den(self.pairs@.len() as int, self.ddof as int)))
        }
    }

    fn update(&mut self, x: &Rat, y: &Rat)
        ensures
            final(self).ddof == old(self).ddof,
    {
        let ghost h0 = self.pairs@;
        let ghost mx0 = self.mean_x.mean@;
        let ghost c0 = self.c@;
        let ghost k = h0.len() + 1 as int;
        proof {
            use_type_invariant(&self.c);
            Rat::lemma_inv_in64(self.c);
            use_type_invariant(&*x);
            Rat::lemma_inv_in64(*x);
            use_type_invariant(&*y);
            Rat::lemma_inv_in64(*y);
        }
        let mx = self.mean_x.mean;
        proof {
            use_type_invariant(&mx);
            Rat::lemma_inv_in64(mx);
        }
        let dx = x.sub(&mx);
        self.mean_x.advance(x);
        self.mean_y.advance(y);
        let my = self.mean_y.mean;
        proof {
            use_type_invariant(&my);
            Rat::lemma_inv_in64(my);
        }
        let dy = y.sub(&my);
        let p = dx.mul(&dy);
        let nc = self.c.add(&p);
        let n = self.mean_x.n.total();
        let den = if n > self.ddof as u64 {
            n - self.ddof as u64
        } else {
            1
        };
        let denr = Rat::from_i64(den as i64);
        let ncov = nc.div(&denr);
        proof {
            let h1 = h0.push((x@, y@));
            assert(xs(h1) =~= xs(h0).push(x@));
            assert(ys(h1) =~= ys(h0).push(y@));
            assert(all_wf(xs(h0))) by {
                assert forall|i: int| 0 <= i < xs(h0).len() implies rwf(#[trigger] xs(h0)[i]) by {
                    assert(xs(h0)[i] == h0[i].0);
                }
            }
            assert(all_wf(ys(h0))) by {
                assert forall|i: int| 0 <= i < ys(h0).len() implies rwf(#[trigger] ys(h0)[i]) by {
                    assert(ys(h0)[i] == h0[i].1);
                }
            }
            assert(all_wf2(h1)) by {
                assert forall|i: int| 0 <= i < h1.len() implies rwf((#[trigger] h1[i]).0) && rwf(
                    h1[i].1,
                ) by {
                    if i < h0.len() {
                        assert(h1[i] == h0[i]);
                    }
                }
            }
            assert(all_wf(xs(h1))) by {
                assert forall|i: int| 0 <= i < xs(h1).len() implies rwf(#[trigger] xs(h1)[i]) by {
                    assert(xs(h1)[i] == h1[i].0);
                }
            }
            assert(all_wf(ys(h1))) by {
                assert forall|i: int| 0 <= i < ys(h1).len() implies rwf(#[trigger] ys(h1)[i]) by {
                    assert(ys(h1)[i] == h1[i].1);
                }
            }
            lemma_sum_push(xs(h0), x@);
            lemma_sum_push(ys(h0), y@);
            lemma_sum_wf(xs(h0));
            lemma_sum_wf(ys(h0));
            lemma_sum_wf(xs(h1));
            lemma_sum_wf(ys(h1));
            lemma_csum_wf(h0);
            lemma_csum_wf(h1);
            if h0.len() == 0 {
                // first pair: the y-deviation from the fresh mean is zero
                assert(sum_of(ys(h0)) == int_r(0));
                assert(rat_eq(div_r(add_r(int_r(0), y@), int_r(1)), y@)) by (nonlinear_arith) {}
                lemma_div_v(sum_of(ys(h1)), int_r(1));
                lemma_eq_trans(my@, div_r(sum_of(ys(h1)), int_r(1)), y@);
                lemma_sub_congr(y@, my@, y@, y@);
                lemma_sub_self(y@, y@);
                lemma_rwf2(y@, y@);
                lemma_eq_trans(dy@, sub_r(y@, my@), sub_r(y@, y@));
                lemma_eq_trans(dy@, sub_r(y@, y@), int_r(0));
                lemma_mul_zero(dx@, dy@);
                lemma_eq_trans(p@, mul_r(dx@, dy@), int_r(0));
                assert(rat_eq(c0, int_r(0)));
                lemma_add_zero(c0, p@);
                lemma_rwf2(c0, p@);
                lemma_eq_trans(nc@, add_r(c0, p@), int_r(0));
                lemma_csd_single(h1);
                lemma_rwf2(sum_of(xs(h1)), sum_of(ys(h1)));
                lemma_div_v(mul_r(sum_of(xs(h1)), sum_of(ys(h1))), int_r(1));
                lemma_rwf2(
                    csum_of(h1),
                    div_r(mul_r(sum_of(xs(h1)), sum_of(ys(h1))), int_r(1)),
                );
                lemma_eq_trans(nc@, int_r(0), csd_of(h1));
            } else {
                let mxc = div_r(sum_of(xs(h0)), int_r(k - 1));
                let myc = div_r(sum_of(ys(h1)), int_r(k));
                lemma_div_v(sum_of(xs(h0)), int_r(k - 1));
                lemma_div_v(sum_of(ys(h1)), int_r(k));
                lemma_sub_congr(x@, mx0, x@, mxc);
                lemma_sub_congr(y@, my@, y@, myc);
                lemma_rwf2(x@, mxc);
                lemma_rwf2(y@, myc);
                lemma_eq_trans(dx@, sub_r(x@, mx0), sub_r(x@, mxc));
                lemma_eq_trans(dy@, sub_r(y@, my@), sub_r(y@, myc));
                lemma_mul_congr(dx@, dy@, sub_r(x@, mxc), sub_r(y@, myc));
                lemma_rwf2(sub_r(x@, mxc), sub_r(y@, myc));
                lemma_eq_trans(p@, mul_r(dx@, dy@), mul_r(sub_r(x@, mxc), sub_r(y@, myc)));
                let inc = mul_r(sub_r(x@, mxc), sub_r(y@, myc));
                lemma_rwf2(sum_of(xs(h0)), sum_of(ys(h0)));
                lemma_div_v(mul_r(sum_of(xs(h0)), sum_of(ys(h0))), int_r(k - 1));
                lemma_rwf2(
                    csum_of(h0),
                    div_r(mul_r(sum_of(xs(h0)), sum_of(ys(h0))), int_r(k - 1)),
                );
                lemma_add_congr(c0, p@, csd_of(h0), inc);
                lemma_rwf2(csd_of(h0), inc);
                lemma_eq_trans(nc@, add_r(c0, p@), add_r(csd_of(h0), inc));
                lemma_csd_push(h0, x@, y@);
                lemma_rwf2(sum_of(xs(h1)), sum_of(ys(h1)));
                lemma_div_v(mul_r(sum_of(xs(h1)), sum_of(ys(h1))), int_r(k));
                lemma_rwf2(
                    csum_of(h1),
                    div_r(mul_r(sum_of(xs(h1)), sum_of(ys(h1))), int_r(k)),
                );
                lemma_eq_trans(nc@, add_r(csd_of(h0), inc), csd_of(h1));
            }
            // the normalized covariance tracks the cross sum
            let dd = int_r(cov_den(k, self.ddof as int));
            assert(denr@ == dd);
            lemma_div_congr(nc@, dd, csd_of(h1), dd);
            lemma_div_v(csd_of(h1), dd);
            lemma_eq_trans(ncov@, div_r(nc@, dd), div_r(csd_of(h1), dd));
        }
        self.c = nc;
        self.cov = ncov;
        proof {
            self.pairs@ = self.pairs@.push((x@, y@));
        }
    }

    fn get(&self) -> (r: Rat) {
        self.cov
    }
}

} // verus!
