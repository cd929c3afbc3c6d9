//! Running and rolling maximum, and the running absolute maximum.

use vstd::prelude::*;

verus! {

use crate::rat::Rat;
use crate::ratio::{abs_r, all_wf, absmax_acc, int_r, lemma_acc_wf, lemma_lt_congr, max_acc,
    rat_eq, rat_le, rat_lt, Ratio};
use crate::sorted_window::{views, SortedWindow};
use crate::stats::Univariate;

/// Running maximum over the whole stream; before any observation it reports
/// the smallest representable value, as a sentinel.
pub struct Max {
    pub max: Rat,
    pub hist: Ghost<Seq<Ratio>>,
}

impl Max {
    /// A fresh maximum at the sentinel.
    pub fn new() -> (r: Max)
        ensures
            r.inv(),
            r.hist() == Seq::<Ratio>::empty(),
    {
        Max { max: Rat::from_i64(i64::MIN + 1), hist: Ghost(Seq::empty()) }
    }
}

impl Default for Max {
    /// A fresh maximum at the sentinel.
    fn default() -> (r: Max)
        ensures
            r.inv(),
            r.hist() == Seq::<Ratio>::empty(),
    {
        Max::new()
    }
}

impl Univariate for Max {
    open spec fn inv(&self) -> bool {
        &&& all_wf(self.hist@)
        &&& self.max@ == max_acc(self.hist@)
    }

    open spec fn hist(&self) -> Seq<Ratio> {
        self.hist@
    }

    open spec fn can_update(&self, x: Ratio) -> bool {
        true
    }

    open spec fn can_get(&self) -> bool {
        true
    }

    open spec fn stat(&self) -> Ratio {
        max_acc(self.hist@)
    }

    fn update(&mut self, x: &Rat) {
        let cond = self.max.lt(x);
        proof {
            use_type_invariant(&self.max);
            Rat::lemma_inv_in64(self.max);
            use_type_invariant(&*x);
            Rat::lemma_inv_in64(*x);
            lemma_acc_wf(self.hist@);
            assert(self.hist@.push(x@).drop_last() =~= self.hist@);
            if cond {
                lemma_lt_congr(self.max@, x@, max_acc(self.hist@), x@);
            } else if rat_lt(max_acc(self.hist@), x@) {
                lemma_lt_congr(max_acc(self.hist@), x@, self.max@, x@);
            }
        }
        if cond {
            self.max = *x;
        }
        proof {
            self.hist@ = self.hist@.push(x@);
        }
    }

    fn get(&self) -> (r: Rat) {
        self.max
    }
}

/// Running maximum of absolute values, starting at zero.
pub struct AbsMax {
    pub abs_max: Rat,
    pub hist: Ghost<Seq<Ratio>>,
}

impl AbsMax {
    /// A fresh absolute maximum at zero.
    pub fn new() -> (r: AbsMax)
        ensures
            r.inv(),
            r.hist() == Seq::<Ratio>::empty(),
    {
        AbsMax { abs_max: Rat::zero(), hist: Ghost(Seq::empty()) }
    }
}

impl Default for AbsMax {
    /// A fresh absolute maximum at zero.
    fn default() -> (r: AbsMax)
        ensures
            r.inv(),
            r.hist() == Seq::<Ratio>::empty(),
    {
        AbsMax::new()
    }
}

impl Univariate for AbsMax {
    open spec fn inv(&self) -> bool {
        &&& all_wf(self.hist@)
        &&& self.abs_max@ == absmax_acc(self.hist@)
    }

    open spec fn hist(&self) -> Seq<Ratio> {
        self.hist@
    }

    open spec fn can_update(&self, x: Ratio) -> bool {
        true
    }

    open spec fn can_get(&self) -> bool {
        true
    }

    open spec fn stat(&self) -> Ratio {
        absmax_acc(self.hist@)
    }

    fn update(&mut self, x: &Rat) {
        let ax = x.abs_val();
        let cond = self.abs_max.lt(&ax);
        proof {
            use_type_invariant(&self.abs_max);
            Rat::lemma_inv_in64(self.abs_max);
            use_type_invariant(&*x);
            Rat::lemma_inv_in64(*x);
            use_type_invariant(&ax);
            Rat::lemma_inv_in64(ax);
            lemma_acc_wf(self.hist@);
            assert(self.hist@.push(x@).drop_last() =~= self.hist@);
            assert(ax@ == abs_r(x@));
            if cond {
                lemma_lt_congr(self.abs_max@, ax@, absmax_acc(self.hist@), ax@);
            } else if rat_lt(absmax_acc(self.hist@), abs_r(x@)) {
                lemma_lt_congr(absmax_acc(self.hist@), ax@, self.abs_max@, ax@);
            }
        }
        if cond {
            self.abs_max = ax;
        }
        proof {
            self.hist@ = self.hist@.push(x@);
        }
    }

    fn get(&self) -> (r: Rat) {
        self.abs_max
    }
}

/// Maximum over a bounded trailing window.
pub struct RollingMax {
    pub sorted_window: SortedWindow,
    pub hist: Ghost<Seq<Ratio>>,
}

impl RollingMax {
    /// A fresh rolling maximum with the given window capacity.
    pub fn new(window_size: usize) -> (r: RollingMax)
        requires
            1 <= window_size,
        ensures
            r.inv(),
            r.hist() == Seq::<Ratio>::empty(),
            r.sorted_window.window_size == window_size,
    {
        let r = RollingMax {
            sorted_window: SortedWindow::new(window_size),
            hist: Ghost(Seq::empty()),
        };
        proof {
            assert(r.sorted_window.window() =~= r.hist@.skip(
                r.hist@.len() - r.sorted_window.window().len(),
            ));
        }
        r
    }
}

impl Univariate for RollingMax {
    open spec fn inv(&self) -> bool {
        &&& self.sorted_window.wf()
        &&& self.sorted_window.base <= self.hist@.len()
        &&& self.sorted_window.window() == self.hist@.skip(
            self.hist@.len() - self.sorted_window.window().len(),
        )
        &&& self.sorted_window.window().len() == vstd::math::min(
            self.hist@.len() as int,
            self.sorted_window.window_size as int,
        )
    }

    open spec fn hist(&self) -> Seq<Ratio> {
        self.hist@
    }

    open spec fn can_update(&self, x: Ratio) -> bool {
        self.sorted_window.base + self.sorted_window.window_size < u64::MAX
    }

    open spec fn can_get(&self) -> bool {
        self.sorted_window.window().len() > 0
    }

    open spec fn stat(&self) -> Ratio {
        self.sorted_window.ranked()[self.sorted_window.ranked().len() - 1]
    }

    fn update(&mut self, x: &Rat)
        ensures
            final(self).sorted_window.window_size == old(self).sorted_window.window_size,
            final(self).sorted_window.window() == (if old(self).sorted_window.window().len()
                == old(self).sorted_window.window_size {
                old(self).sorted_window.window().drop_first().push(x@)
            } else {
                old(self).sorted_window.window().push(x@)
            }),
    {
        self.sorted_window.push_back(*x);
        proof {
            self.hist@ = self.hist@.push(x@);
            assert(self.sorted_window.window() =~= self.hist@.skip(
                self.hist@.len() - self.sorted_window.window().len(),
            ));
        }
    }

    fn get(&self) -> (r: Rat) {
        self.sorted_window.back()
    }
}

} // verus!
