//! Running and rolling minimum.

use vstd::prelude::*;

verus! {

use crate::rat::Rat;
use crate::ratio::{all_wf, int_r, lemma_acc_wf, lemma_lt_congr, min_acc, rat_eq, rat_le, rat_lt,
    Ratio};
use crate::sorted_window::{views, SortedWindow};
use crate::stats::Univariate;

/// Running minimum over the whole stream; before any observation it reports
/// the largest representable value, as a sentinel.
pub struct Min {
    pub min: Rat,
    pub hist: Ghost<Seq<Ratio>>,
}

impl Min {
    /// A fresh minimum at the sentinel.
    pub fn new() -> (r: Min)
        ensures
            r.inv(),
            r.hist() == Seq::<Ratio>::empty(),
    {
        Min { min: Rat::from_i64(i64::MAX), hist: Ghost(Seq::empty()) }
    }
}

impl Univariate for Min {
    open spec fn inv(&self) -> bool {
        &&& all_wf(self.hist@)
        &&& self.min@ == min_acc(self.hist@)
    }

    open spec fn hist(&self) -> Seq<Ratio> {
        self.hist@
    }

    open spec fn can_update(&self, x: Ratio) -> bool {
        true
    }

    open spec fn can_get(&self) -> bool {
        true
    }

    open spec fn stat(&self) -> Ratio {
        min_acc(self.hist@)
    }

    fn update(&mut self, x: &Rat) {
        let cond = x.lt(&self.min);
        proof {
            use_type_invariant(&self.min);
            Rat::lemma_inv_in64(self.min);
            use_type_invariant(&*x);
            Rat::lemma_inv_in64(*x);
            lemma_acc_wf(self.hist@);
            assert(self.hist@.push(x@).drop_last() =~= self.hist@);
            if cond {
                lemma_lt_congr(x@, self.min@, x@, min_acc(self.hist@));
            } else if rat_lt(x@, min_acc(self.hist@)) {
                lemma_lt_congr(x@, min_acc(self.hist@), x@, self.min@);
            }
        }
        if cond {
            self.min = *x;
        }
        proof {
            self.hist@ = self.hist@.push(x@);
        }
    }

    fn get(&self) -> (r: Rat) {
        self.min
    }
}

impl Default for Min {
    /// A fresh minimum at the sentinel.
    fn default() -> (r: Min)
        ensures
            r.inv(),
            r.hist() == Seq::<Ratio>::empty(),
    {
        Min::new()
    }
}

/// Minimum over a bounded trailing window.
pub struct RollingMin {
    pub sorted_window: SortedWindow,
    pub hist: Ghost<Seq<Ratio>>,
}

impl RollingMin {
    /// A fresh rolling minimum with the given window capacity.
    pub fn new(window_size: usize) -> (r: RollingMin)
        requires
            1 <= window_size,
        ensures
            r.inv(),
            r.hist() == Seq::<Ratio>::empty(),
            r.sorted_window.window_size == window_size,
    {
        let r = RollingMin {
            sorted_window: SortedWindow::new(window_size),
            hist: Ghost(Seq::empty()),
        };
        proof {
            assert(r.sorted_window.window() =~= r.hist@.skip(
                r.hist@.len() - r.sorted_window.window().len(),
            ));
        }
        r
    }
}

impl Univariate for RollingMin {
    open spec fn inv(&self) -> bool {
        &&& self.sorted_window.wf()
        &&& self.sorted_window.base <= self.hist@.len()
        &&& self.sorted_window.window() == self.hist@.skip(
            self.hist@.len() - self.sorted_window.window().len(),
        )
        &&& self.sorted_window.window().len() == vstd::math::min(
            self.hist@.len() as int,
            self.sorted_window.window_size as int,
        )
    }

    open spec fn hist(&self) -> Seq<Ratio> {
        self.hist@
    }

    open spec fn can_update(&self, x: Ratio) -> bool {
        self.sorted_window.base + self.sorted_window.window_size < u64::MAX
    }

    open spec fn can_get(&self) -> bool {
        self.sorted_window.window().len() > 0
    }

    open spec fn stat(&self) -> Ratio {
        self.sorted_window.ranked()[0]
    }

    fn update(&mut self, x: &Rat)
        ensures
            final(self).sorted_window.window_size == old(self).sorted_window.window_size,
            final(self).sorted_window.window() == (if old(self).sorted_window.window().len()
                == old(self).sorted_window.window_size {
                old(self).sorted_window.window().drop_first().push(x@)
            } else {
                old(self).sorted_window.window().push(x@)
            }),
    {
        let ghost h0 = self.hist@;
        let ghost w0 = self.sorted_window.window();
        self.sorted_window.push_back(*x);
        proof {
            self.hist@ = self.hist@.push(x@);
            assert(self.sorted_window.window() =~= self.hist@.skip(
                self.hist@.len() - self.sorted_window.window().len(),
            ));
        }
    }

    fn get(&self) -> (r: Rat) {
        self.sorted_window.front()
    }
}

} // verus!
