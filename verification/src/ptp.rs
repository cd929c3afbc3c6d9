//! Running and rolling peak-to-peak (maximum minus minimum).

use vstd::prelude::*;

verus! {

use crate::maximum::{Max, RollingMax};
use crate::minimum::{Min, RollingMin};
use crate::rat::Rat;
use crate::ratio::{lemma_sub_congr, lemma_sub_v, max_acc, min_acc, rat_eq, sub_fits, sub_r,
    Ratio};
use crate::stats::Univariate;

/// Peak-to-peak over the whole stream: the running maximum minus the running
/// minimum (the difference of the two sentinels before any observation).
pub struct PeakToPeak {
    pub min: Min,
    pub max: Max,
}

impl PeakToPeak {
    /// A fresh peak-to-peak accumulator.
    pub fn new() -> (r: PeakToPeak)
        ensures
            r.inv(),
            r.hist() == Seq::<Ratio>::empty(),
    {
        PeakToPeak { min: Min::new(), max: Max::new() }
    }
}

impl Univariate for PeakToPeak {
    open spec fn inv(&self) -> bool {
        &&& self.min.inv()
        &&& self.max.inv()
        &&& self.min.hist@ == self.max.hist@
    }

    open spec fn hist(&self) -> Seq<Ratio> {
        self.min.hist@
    }

    open spec fn can_update(&self, x: Ratio) -> bool {
        true
    }

    open spec fn can_get(&self) -> bool {
        sub_fits(max_acc(self.min.hist@), min_acc(self.min.hist@))
    }

    open spec fn stat(&self) -> Ratio {
        sub_r(max_acc(self.min.hist@), min_acc(self.min.hist@))
    }

    fn update(&mut self, x: &Rat) {
        self.min.update(x);
        self.max.update(x);
    }

    fn get(&self) -> (r: Rat) {
        let r = self.max.max.sub(&self.min.min);
        proof {
            use_type_invariant(&self.max.max);
            Rat::lemma_inv_in64(self.max.max);
            use_type_invariant(&self.min.min);
            Rat::lemma_inv_in64(self.min.min);
            crate::ratio::lemma_acc_wf(self.min.hist@);
            lemma_sub_congr(
                self.max.max@,
                self.min.min@,
                max_acc(self.min.hist@),
                min_acc(self.min.hist@),
            );
            crate::ratio::lemma_rwf2(max_acc(self.min.hist@), min_acc(self.min.hist@));
            crate::ratio::lemma_eq_trans(
                r@,
                sub_r(self.max.max@, self.min.min@),
                sub_r(max_acc(self.min.hist@), min_acc(self.min.hist@)),
            );
        }
        r
    }
}

/// Peak-to-peak over a bounded trailing window.
pub struct RollingPeakToPeak {
    pub min: RollingMin,
    pub max: RollingMax,
}

impl RollingPeakToPeak {
    /// A fresh rolling peak-to-peak with the given window capacity.
    pub fn new(window_size: usize) -> (r: RollingPeakToPeak)
        requires
            1 <= window_size,
        ensures
            r.inv(),
            r.hist() == Seq::<Ratio>::empty(),
    {
        RollingPeakToPeak { min: RollingMin::new(window_size), max: RollingMax::new(window_size) }
    }
}

impl Univariate for RollingPeakToPeak {
    open spec fn inv(&self) -> bool {
        &&& self.min.inv()
        &&& self.max.inv()
        &&& self.min.hist@ == self.max.hist@
    }

    open spec fn hist(&self) -> Seq<Ratio> {
        self.min.hist@
    }

    open spec fn can_update(&self, x: Ratio) -> bool {
        self.min.can_update(x) && self.max.can_update(x)
    }

    open spec fn can_get(&self) -> bool {
        self.min.sorted_window.window().len() > 0 && sub_fits(self.max.stat(), self.min.stat())
    }

    open spec fn stat(&self) -> Ratio {
        sub_r(self.max.stat(), self.min.stat())
    }

    fn update(&mut self, x: &Rat)
        ensures
            final(self).min.sorted_window.window_size == old(self).min.sorted_window.window_size,
            final(self).max.sorted_window.window_size == old(self).max.sorted_window.window_size,
    {
        self.min.update(x);
        self.max.update(x);
    }

    fn get(&self) -> (r: Rat) {
        let hi = self.max.sorted_window.back();
        let lo = self.min.sorted_window.front();
        let r = hi.sub(&lo);
        r
    }
}

} // verus!
