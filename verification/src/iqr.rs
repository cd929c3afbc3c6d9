//! Running and rolling interquartile range.

use vstd::prelude::*;

verus! {

use crate::quantile::{floor_idx, frac_rep, hi_idx, interp_fits, interp_r, interpolate,
    lemma_interp_self, new_fits, Quantile, quantile_indices};
use crate::rat::Rat;
use crate::ratio::{add_v, in64, int_r, lemma_eq_trans, lemma_rwf2, lemma_sub_congr,
    lemma_sub_self, mul_v, rat_eq, rat_le, rat_lt, rwf, sub_fits, sub_r, Ratio};
use crate::sorted_window::SortedWindow;
use crate::stats::{Error, Univariate};

/// The spread between two streaming quantile estimates of the same stream.
pub struct IQR {
    pub q_inf: Quantile,
    pub q_sup: Quantile,
}

impl IQR {
    /// Builds the estimator; rejects `q_inf >= q_sup` and fractions outside
    /// `[0, 1]`.
    pub fn new(q_inf: &Rat, q_sup: &Rat) -> (r: Result<IQR, Error>)
        ensures
            r is Ok <==> (rat_lt(q_inf@, q_sup@) && rat_le(int_r(0), q_inf@) && rat_le(
                q_inf@,
                int_r(1),
            ) && new_fits(q_inf@) && rat_le(int_r(0), q_sup@) && rat_le(q_sup@, int_r(1))
                && new_fits(q_sup@)),
            r is Ok ==> r->Ok_0.inv() && crate::quantile::fresh_quantile(r->Ok_0.q_inf, q_inf@)
                && crate::quantile::fresh_quantile(r->Ok_0.q_sup, q_sup@),
    {
        if !q_inf.lt(q_sup) {
            return Err(Error::InvalidParameter);
        }
        let inf = match Quantile::new(q_inf) {
            Ok(v) => v,
            Err(e) => { return Err(e) },
        };
        let sup = match Quantile::new(q_sup) {
            Ok(v) => v,
            Err(e) => { return Err(e) },
        };
        Ok(IQR { q_inf: inf, q_sup: sup })
    }
}

impl Default for IQR {
    /// A fresh interquartile range over the first and third quartiles.
    fn default() -> (r: IQR)
        ensures
            r.inv(),
            r.hist() == Seq::<Ratio>::empty(),
            crate::quantile::fresh_quantile(r.q_inf, Ratio { n: 1, d: 4 }),
            crate::quantile::fresh_quantile(r.q_sup, Ratio { n: 3, d: 4 }),
    {
        let quarter = match Rat::new(1, 4) {
            Some(v) => v,
            None => {
                proof {
                    assert(false);
                }
                Rat::zero()
            },
        };
        let three_quarters = match Rat::new(3, 4) {
            Some(v) => v,
            None => {
                proof {
                    assert(false);
                }
                Rat::zero()
            },
        };
        proof {
            crate::quantile::lemma_quarters_fit();
        }
        match IQR::new(&quarter, &three_quarters) {
            Ok(v) => v,
            Err(_) => {
                proof {
                    assert(false);
                }
                IQR {
                    q_inf: Quantile {
                        q: quarter,
                        desired: Vec::new(),
                        marker: Vec::new(),
                        position: Vec::new(),
                        heights: Vec::new(),
                        heights_sorted: false,
                        hist: Ghost(Seq::empty()),
                    },
                    q_sup: Quantile {
                        q: three_quarters,
                        desired: Vec::new(),
                        marker: Vec::new(),
                        position: Vec::new(),
                        heights: Vec::new(),
                        heights_sorted: false,
                        hist: Ghost(Seq::empty()),
                    },
                }
            },
        }
    }
}

impl Univariate for IQR {
    open spec fn inv(&self) -> bool {
        &&& self.q_inf.inv()
        &&& self.q_sup.inv()
        &&& self.q_inf.hist@ == self.q_sup.hist@
    }

    open spec fn hist(&self) -> Seq<Ratio> {
        self.q_inf.hist@
    }

    open spec fn can_update(&self, x: Ratio) -> bool {
        true
    }

    open spec fn can_get(&self) -> bool {
        self.q_inf.heights_sorted && self.q_sup.heights_sorted && sub_fits(
            self.q_sup.stat(),
            self.q_inf.stat(),
        )
    }

    open spec fn stat(&self) -> Ratio {
        sub_r(self.q_sup.stat(), self.q_inf.stat())
    }

    fn update(&mut self, x: &Rat)
        ensures
            crate::quantile::q_stepped(old(self).q_inf, final(self).q_inf, *x),
            crate::quantile::q_stepped(old(self).q_sup, final(self).q_sup, *x),
    {
        self.q_inf.update(x);
        self.q_sup.update(x);
    }

    fn get(&self) -> (r: Rat) {
        let hi = self.q_sup.heights[2];
        let lo = self.q_inf.heights[2];
        hi.sub(&lo)
    }
}

/// Interquartile range over a bounded trailing window, by interpolated
/// order statistics.
pub struct RollingIQR {
    pub sorted_window: SortedWindow,
    pub q_inf: Rat,
    pub q_sup: Rat,
    pub window_size: usize,
    pub lower_inf: usize,
    pub higher_inf: usize,
    pub frac_inf: Rat,
    pub lower_sup: usize,
    pub higher_sup: usize,
    pub frac_sup: Rat,
    pub hist: Ghost<Seq<Ratio>>,
}

impl RollingIQR {
    /// Builds the rolling interquartile range; rejects fractions outside
    /// `[0, 1]`, `q_inf >= q_sup`, and a zero (or unrepresentably large)
    /// window.
    pub fn new(q_inf: &Rat, q_sup: &Rat, window_size: usize) -> (r: Result<RollingIQR, Error>)
        ensures
            r is Ok <==> (rat_le(int_r(0), q_inf@) && rat_le(q_inf@, int_r(1)) && rat_le(
                int_r(0),
                q_sup@,
            ) && rat_le(q_sup@, int_r(1)) && rat_lt(q_inf@, q_sup@) && 1 <= window_size
                && window_size <= u32::MAX),
            r is Ok ==> r->Ok_0.inv() && r->Ok_0.hist() == Seq::<Ratio>::empty()
                && r->Ok_0.window_size == window_size && r->Ok_0.q_inf == *q_inf && r->Ok_0.q_sup
                == *q_sup && r->Ok_0.lower_inf == floor_idx(q_inf@, window_size as int)
                && r->Ok_0.higher_inf == hi_idx(q_inf@, window_size as int) && r->Ok_0.frac_inf@
                == frac_rep(q_inf@, window_size as int) && r->Ok_0.lower_sup == floor_idx(
                q_sup@,
                window_size as int,
            ) && r->Ok_0.higher_sup == hi_idx(q_sup@, window_size as int) && r->Ok_0.frac_sup@
                == frac_rep(q_sup@, window_size as int) && r->Ok_0.sorted_window.base == 0,
    {
        let zero = Rat::zero();
        let one = Rat::from_int(1);
        if window_size == 0 || window_size > u32::MAX as usize {
            return Err(Error::InvalidParameter);
        }
        if !(zero.le(q_inf) && q_inf.le(&one)) {
            return Err(Error::InvalidParameter);
        }
        if !(zero.le(q_sup) && q_sup.le(&one)) {
            return Err(Error::InvalidParameter);
        }
        if !q_inf.lt(q_sup) {
            return Err(Error::InvalidParameter);
        }
        let (lower_inf, higher_inf, frac_inf) = quantile_indices(q_inf, window_size);
        let (lower_sup, higher_sup, frac_sup) = quantile_indices(q_sup, window_size);
        let r = RollingIQR {
            sorted_window: SortedWindow::new(window_size),
            q_inf: *q_inf,
            q_sup: *q_sup,
            window_size,
            lower_inf,
            higher_inf,
            frac_inf,
            lower_sup,
            higher_sup,
            frac_sup,
            hist: Ghost(Seq::empty()),
        };
        proof {
            assert(r.sorted_window.window() =~= r.hist@.skip(
                r.hist@.len() - r.sorted_window.window().len(),
            ));
        }
        Ok(r)
    }

    /// The inferior rank below its target, against the current length.
    pub open spec fn cur_lower_inf(&self) -> int {
        if self.sorted_window.window().len() == self.window_size {
            self.lower_inf as int
        } else {
            floor_idx(self.q_inf@, self.sorted_window.window().len() as int)
        }
    }

    /// The inferior rank above its target, against the current length.
    pub open spec fn cur_higher_inf(&self) -> int {
        if self.sorted_window.window().len() == self.window_size {
            self.higher_inf as int
        } else {
            hi_idx(self.q_inf@, self.sorted_window.window().len() as int)
        }
    }

    /// The inferior fractional remainder, against the current length.
    pub open spec fn cur_frac_inf(&self) -> Ratio {
        if self.sorted_window.window().len() == self.window_size {
            self.frac_inf@
        } else {
            frac_rep(self.q_inf@, self.sorted_window.window().len() as int)
        }
    }

    /// The superior rank below its target, against the current length.
    pub open spec fn cur_lower_sup(&self) -> int {
        if self.sorted_window.window().len() == self.window_size {
            self.lower_sup as int
        } else {
            floor_idx(self.q_sup@, self.sorted_window.window().len() as int)
        }
    }

    /// The superior rank above its target, against the current length.
    pub open spec fn cur_higher_sup(&self) -> int {
        if self.sorted_window.window().len() == self.window_size {
            self.higher_sup as int
        } else {
            hi_idx(self.q_sup@, self.sorted_window.window().len() as int)
        }
    }

    /// The superior fractional remainder, against the current length.
    pub open spec fn cur_frac_sup(&self) -> Ratio {
        if self.sorted_window.window().len() == self.window_size {
            self.frac_sup@
        } else {
            frac_rep(self.q_sup@, self.sorted_window.window().len() as int)
        }
    }

    /// The interpolated estimate of the inferior quantile of the window.
    pub open spec fn inf_estimate(&self) -> Ratio {
        interp_r(
            self.sorted_window.ranked()[self.cur_lower_inf()],
            self.sorted_window.ranked()[self.cur_higher_inf()],
            self.cur_frac_inf(),
        )
    }

    /// The interpolated estimate of the superior quantile of the window.
    pub open spec fn sup_estimate(&self) -> Ratio {
        interp_r(
            self.sorted_window.ranked()[self.cur_lower_sup()],
            self.sorted_window.ranked()[self.cur_higher_sup()],
            self.cur_frac_sup(),
        )
    }
}

impl Univariate for RollingIQR {
    open spec fn inv(&self) -> bool {
        &&& self.sorted_window.wf()
        &&& self.sorted_window.window_size == self.window_size
        &&& self.window_size <= u32::MAX
        &&& in64(self.q_inf@) && in64(self.q_sup@)
        &&& rat_le(int_r(0), self.q_inf@) && rat_le(self.q_inf@, int_r(1))
        &&& rat_le(int_r(0), self.q_sup@) && rat_le(self.q_sup@, int_r(1))
        &&& self.lower_inf < self.window_size && self.higher_inf < self.window_size
        &&& self.lower_sup < self.window_size && self.higher_sup < self.window_size
        &&& in64(self.frac_inf@) && in64(self.frac_sup@)
        &&& self.sorted_window.base <= self.hist@.len()
        &&& self.sorted_window.window() == self.hist@.skip(
            self.hist@.len() - self.sorted_window.window().len(),
        )
        &&& self.sorted_window.window().len() == vstd::math::min(
            self.hist@.len() as int,
            self.window_size as int,
        )
    }

    open spec fn hist(&self) -> Seq<Ratio> {
        self.hist@
    }

    open spec fn can_update(&self, x: Ratio) -> bool {
        self.sorted_window.base + self.sorted_window.window_size < u64::MAX
    }

    open spec fn can_get(&self) -> bool {
        &&& self.sorted_window.window().len() > 0
        &&& interp_fits(
            self.sorted_window.ranked()[self.cur_lower_inf()],
            self.sorted_window.ranked()[self.cur_higher_inf()],
            self.cur_frac_inf(),
        )
        &&& interp_fits(
            self.sorted_window.ranked()[self.cur_lower_sup()],
            self.sorted_window.ranked()[self.cur_higher_sup()],
            self.cur_frac_sup(),
        )
        &&& sub_fits(self.sup_view(), self.inf_view())
    }

    open spec fn stat(&self) -> Ratio {
        sub_r(self.sup_estimate(), self.inf_estimate())
    }

    fn update(&mut self, x: &Rat)
        ensures
            final(self).q_inf == old(self).q_inf,
            final(self).q_sup == old(self).q_sup,
            final(self).window_size == old(self).window_size,
            final(self).lower_inf == old(self).lower_inf,
            final(self).higher_inf == old(self).higher_inf,
            final(self).frac_inf == old(self).frac_inf,
            final(self).lower_sup == old(self).lower_sup,
            final(self).higher_sup == old(self).higher_sup,
            final(self).frac_sup == old(self).frac_sup,
            final(self).sorted_window.window() == (if old(self).sorted_window.window().len()
                == old(self).window_size {
                old(self).sorted_window.window().drop_first().push(x@)
            } else {
                old(self).sorted_window.window().push(x@)
            }),
    {
        self.sorted_window.push_back(*x);
        proof {
            self.hist@ = self.hist@.push(x@);
            assert(self.sorted_window.window() =~= self.hist@.skip(
                self.hist@.len() - self.sorted_window.window().len(),
            ));
        }
    }

    fn get(&self) -> (r: Rat) {
        let len = self.sorted_window.len();
        let (lo, hi) = if len < self.window_size {
            // the window is not yet full: the ranks are recomputed against
            // the current length
            let (li, hi_i, fi) = quantile_indices(&self.q_inf, len);
            let (ls, hs, fs) = quantile_indices(&self.q_sup, len);
            (
                interpolate(&self.sorted_window, li, hi_i, &fi),
                interpolate(&self.sorted_window, ls, hs, &fs),
            )
        } else {
            (
                interpolate(
                    &self.sorted_window,
                    self.lower_inf,
                    self.higher_inf,
                    &self.frac_inf,
                ),
                interpolate(
                    &self.sorted_window,
                    self.lower_sup,
                    self.higher_sup,
                    &self.frac_sup,
                ),
            )
        };
        let r = hi.sub(&lo);
        proof {
            use_type_invariant(&hi);
            Rat::lemma_inv_in64(hi);
            use_type_invariant(&lo);
            Rat::lemma_inv_in64(lo);
            lemma_estimates_wf(self);
            lemma_sub_congr(hi@, lo@, self.sup_estimate(), self.inf_estimate());
            lemma_rwf2(self.sup_estimate(), self.inf_estimate());
            lemma_eq_trans(r@, sub_r(hi@, lo@), sub_r(self.sup_estimate(), self.inf_estimate()));
        }
        r
    }
}

impl RollingIQR {
    /// The exact representation the superior interpolation computes.
    pub open spec fn sup_view(&self) -> Ratio {
        crate::ratio::add_v(
            self.sorted_window.ranked()[self.cur_lower_sup()],
            crate::ratio::mul_v(
                crate::ratio::sub_v(
                    self.sorted_window.ranked()[self.cur_higher_sup()],
                    self.sorted_window.ranked()[self.cur_lower_sup()],
                ),
                self.cur_frac_sup(),
            ),
        )
    }

    /// The exact representation the inferior interpolation computes.
    pub open spec fn inf_view(&self) -> Ratio {
        crate::ratio::add_v(
            self.sorted_window.ranked()[self.cur_lower_inf()],
            crate::ratio::mul_v(
                crate::ratio::sub_v(
                    self.sorted_window.ranked()[self.cur_higher_inf()],
                    self.sorted_window.ranked()[self.cur_lower_inf()],
                ),
                self.cur_frac_inf(),
            ),
        )
    }
}

/// Both interpolated estimates are well-formed rationals.
proof fn lemma_estimates_wf(s: &RollingIQR)
    requires
        s.inv(),
        s.sorted_window.window().len() > 0,
    ensures
        rwf(s.inf_estimate()),
        rwf(s.sup_estimate()),
        0 <= s.cur_lower_inf() < s.sorted_window.window().len(),
        0 <= s.cur_higher_inf() < s.sorted_window.window().len(),
        0 <= s.cur_lower_sup() < s.sorted_window.window().len(),
        0 <= s.cur_higher_sup() < s.sorted_window.window().len(),
        rwf(s.cur_frac_inf()),
        rwf(s.cur_frac_sup()),
{
    let len = s.sorted_window.window().len() as int;
    if len != s.window_size {
        crate::quantile::lemma_idx_bounds(s.q_inf@, len);
        crate::quantile::lemma_idx_bounds(s.q_sup@, len);
    }
    assert(in64(s.sorted_window.sorted@[s.cur_lower_inf()].0@));
    assert(in64(s.sorted_window.sorted@[s.cur_higher_inf()].0@));
    assert(in64(s.sorted_window.sorted@[s.cur_lower_sup()].0@));
    assert(in64(s.sorted_window.sorted@[s.cur_higher_sup()].0@));
    lemma_rwf2(
        s.sorted_window.ranked()[s.cur_higher_inf()],
        s.sorted_window.ranked()[s.cur_lower_inf()],
    );
    lemma_rwf2(
        crate::ratio::sub_r(
            s.sorted_window.ranked()[s.cur_higher_inf()],
            s.sorted_window.ranked()[s.cur_lower_inf()],
        ),
        s.cur_frac_inf(),
    );
    lemma_rwf2(
        s.sorted_window.ranked()[s.cur_lower_inf()],
        crate::ratio::mul_r(
            crate::ratio::sub_r(
                s.sorted_window.ranked()[s.cur_higher_inf()],
                s.sorted_window.ranked()[s.cur_lower_inf()],
            ),
            s.cur_frac_inf(),
        ),
    );
    lemma_rwf2(
        s.sorted_window.ranked()[s.cur_higher_sup()],
        s.sorted_window.ranked()[s.cur_lower_sup()],
    );
    lemma_rwf2(
        crate::ratio::sub_r(
            s.sorted_window.ranked()[s.cur_higher_sup()],
            s.sorted_window.ranked()[s.cur_lower_sup()],
        ),
        s.cur_frac_sup(),
    );
    lemma_rwf2(
        s.sorted_window.ranked()[s.cur_lower_sup()],
        crate::ratio::mul_r(
            crate::ratio::sub_r(
                s.sorted_window.ranked()[s.cur_higher_sup()],
                s.sorted_window.ranked()[s.cur_lower_sup()],
            ),
            s.cur_frac_sup(),
        ),
    );
}

/// A window of one observation has zero spread: with `window_size == 1` every
/// rank is the single entry, so the rolling interquartile range is exactly
/// zero whatever arrived.
pub proof fn lemma_iqr_single_window(s: &RollingIQR)
    requires
        s.inv(),
        s.window_size == 1,
        s.sorted_window.window().len() == 1,
    ensures
        rat_eq(s.stat(), int_r(0)),
{
    let x = s.sorted_window.ranked()[0];
    assert(in64(s.sorted_window.sorted@[0].0@));
    assert(s.lower_inf == 0 && s.higher_inf == 0 && s.lower_sup == 0 && s.higher_sup == 0);
    lemma_interp_self(x, s.frac_inf@);
    lemma_interp_self(x, s.frac_sup@);
    lemma_estimates_wf(s);
    lemma_sub_congr(s.sup_estimate(), s.inf_estimate(), x, x);
    lemma_sub_self(x, x);
    lemma_rwf2(x, x);
    lemma_rwf2(s.sup_estimate(), s.inf_estimate());
    crate::ratio::lemma_eq_trans(s.stat(), sub_r(x, x), int_r(0));
}

} // verus!
