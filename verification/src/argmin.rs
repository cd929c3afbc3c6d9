//! Position tracking for the minimum of a bounded trailing window.

use vstd::prelude::*;

verus! {

use crate::rat::Rat;
use crate::ratio::{int_r, min_acc, rat_eq, rat_lt, Ratio};
use crate::sorted_window::{views, SortedWindow};
use crate::stats::Univariate;

/// Rolling argument-of-minimum: reports how many updates ago the cached
/// window minimum arrived (`0` is the newest observation), using the
/// original caching rule: the position ages by one while the minimum stays,
/// resets to zero when the new observation does not exceed the old minimum,
/// and falls back to the newest value-equal entry when the cached position
/// ages out of the window.
pub struct RollingArgMin {
    pub sorted_window: SortedWindow,
    pub window_size: usize,
    pub argmin: usize,
    pub hist: Ghost<Seq<Ratio>>,
}

impl RollingArgMin {
    /// A fresh rolling argument-of-minimum with the given window capacity.
    pub fn new(window_size: usize) -> (r: RollingArgMin)
        requires
            1 <= window_size,
            window_size <= u32::MAX,
        ensures
            r.inv(),
            r.hist() == Seq::<Ratio>::empty(),
            r.window_size == window_size,
    {
        let r = RollingArgMin {
            sorted_window: SortedWindow::new(window_size),
            window_size,
            argmin: 0,
            hist: Ghost(Seq::empty()),
        };
        proof {
            assert(r.sorted_window.window() =~= r.hist@.skip(
                r.hist@.len() - r.sorted_window.window().len(),
            ));
        }
        r
    }

    /// The newest window position whose entry equals `x` in value, counted
    /// from the most recent observation.
    fn rev_position(&self, x: &Rat) -> (r: usize)
        requires
            self.inv(),
            self.sorted_window.window().len() > 0,
            rat_eq(
                self.sorted_window.window()[self.sorted_window.window().len() - 1],
                x@,
            ),
        ensures
            r < self.sorted_window.window().len(),
            rat_eq(
                self.sorted_window.window()[self.sorted_window.window().len() - 1 - r],
                x@,
            ),
            forall|j: int|
                0 <= j < r ==> !#[trigger] rat_eq(
                    self.sorted_window.window()[self.sorted_window.window().len() - 1 - j],
                    x@,
                ),
    {
        let n = self.sorted_window.arrival.len();
        let mut r: usize = 0;
        while r < n - 1 && !self.sorted_window.arrival[n - 1 - r].eq_val(x)
            invariant
                self.inv(),
                n == self.sorted_window.window().len(),
                0 < n,
                0 <= r < n,
                rat_eq(self.sorted_window.window()[n - 1], x@),
                forall|j: int|
                    0 <= j < r ==> !#[trigger] rat_eq(
                        self.sorted_window.window()[n - 1 - j],
                        x@,
                    ),
            decreases n - r,
        {
            proof {
                assert(self.sorted_window.window()[n - 1 - r] == self.sorted_window.arrival@[n - 1
                    - r]@);
            }
            r = r + 1;
        }
        if r == 0 {
            proof {
                assert(self.sorted_window.window()[n - 1] == self.sorted_window.arrival@[n
                    - 1]@);
            }
            0
        } else {
            if self.sorted_window.arrival[n - 1 - r].eq_val(x) {
                proof {
                    assert(self.sorted_window.window()[n - 1 - r] == self.sorted_window.arrival@[n
                        - 1 - r]@);
                }
                r
            } else {
                proof {
                    assert(self.sorted_window.window()[n - 1] == self.sorted_window.arrival@[n
                        - 1]@);
                }
                0
            }
        }
    }
}

impl Univariate for RollingArgMin {
    open spec fn inv(&self) -> bool {
        &&& self.sorted_window.wf()
        &&& self.sorted_window.window_size == self.window_size
        &&& self.window_size <= u32::MAX
        &&& (self.sorted_window.window().len() > 0 ==> self.argmin
            < self.sorted_window.window().len())
        &&& (self.sorted_window.window().len() == 0 ==> self.argmin == 0)
        &&& self.sorted_window.base <= self.hist@.len()
        &&& self.sorted_window.window() == self.hist@.skip(
            self.hist@.len() - self.sorted_window.window().len(),
        )
        &&& self.sorted_window.window().len() == vstd::math::min(
            self.hist@.len() as int,
            self.window_size as int,
        )
    }

    open spec fn hist(&self) -> Seq<Ratio> {
        self.hist@
    }

    open spec fn can_update(&self, x: Ratio) -> bool {
        self.sorted_window.base + self.sorted_window.window_size < u64::MAX
    }

    open spec fn can_get(&self) -> bool {
        true
    }

    open spec fn stat(&self) -> Ratio {
        int_r(self.argmin as int)
    }

    fn update(&mut self, x: &Rat)
        ensures
            final(self).window_size == old(self).window_size,
            old(self).sorted_window.window().len() == 0 ==> final(self).argmin == 0,
            old(self).sorted_window.window().len() > 0 ==> final(self).argmin == (if rat_lt(
                old(self).sorted_window.ranked()[0],
                x@,
            ) {
                if old(self).argmin < final(self).sorted_window.window().len() - 1 {
                    old(self).argmin + 1
                } else {
                    0
                }
            } else {
                0
            }),
            final(self).sorted_window.window() == (if old(self).sorted_window.window().len()
                == old(self).window_size {
                old(self).sorted_window.window().drop_first().push(x@)
            } else {
                old(self).sorted_window.window().push(x@)
            }),
    {
        self.track(x);
    }

    fn get(&self) -> (r: Rat) {
        proof {
            assert(self.argmin <= u32::MAX as usize);
        }
        Rat::from_i64(self.argmin as i64)
    }
}

impl RollingArgMin {
    /// Incorporates one observation, promising the exact caching rule: the
    /// cached position ages by one while a larger value arrives, resets to
    /// zero when the new observation does not exceed the old minimum, and
    /// falls back to the newest value-equal entry (the observation itself)
    /// when the cached position ages out of the window.
    pub fn track(&mut self, x: &Rat)
        requires
            old(self).inv(),
            old(self).can_update(x@),
        ensures
            final(self).inv(),
            final(self).hist@ == old(self).hist@.push(x@),
            final(self).window_size == old(self).window_size,
            old(self).sorted_window.window().len() == 0 ==> final(self).argmin == 0,
            old(self).sorted_window.window().len() > 0 ==> final(self).argmin == (if rat_lt(
                old(self).sorted_window.ranked()[0],
                x@,
            ) {
                if old(self).argmin < final(self).sorted_window.window().len() - 1 {
                    old(self).argmin + 1
                } else {
                    0
                }
            } else {
                0
            }),
    {
        if self.sorted_window.len() == 0 {
            self.argmin = 0;
            self.sorted_window.push_back(*x);
            proof {
                self.hist@ = self.hist@.push(x@);
                assert(self.sorted_window.window() =~= self.hist@.skip(
                    self.hist@.len() - self.sorted_window.window().len(),
                ));
            }
            return ;
        }
        let minimum = self.sorted_window.front();
        self.sorted_window.push_back(*x);
        proof {
            self.hist@ = self.hist@.push(x@);
            assert(self.sorted_window.window() =~= self.hist@.skip(
                self.hist@.len() - self.sorted_window.window().len(),
            ));
        }
        if minimum.lt(x) {
            if self.argmin < self.sorted_window.len() - 1 {
                self.argmin = self.argmin + 1;
            } else {
                proof {
                    let w = self.sorted_window.window();
                    assert(w[w.len() - 1] == self.sorted_window.arrival@[w.len() - 1]@);
                }
                let p = self.rev_position(x);
                proof {
                    let w = self.sorted_window.window();
                    if p > 0 {
                        assert(!rat_eq(w[w.len() - 1 - 0], x@));
                    }
                }
                self.argmin = p;
            }
        } else {
            self.argmin = 0;
        }
    }
}
/// How many updates have elapsed since the running minimum was last set:
/// zero at the first observation and whenever a new strict minimum arrives,
/// otherwise one more than before.
pub open spec fn age_of(s: Seq<Ratio>) -> int
    decreases s.len(),
{
    if s.len() <= 1 {
        0
    } else if rat_lt(s.last(), min_acc(s.drop_last())) {
        0
    } else {
        age_of(s.drop_last()) + 1
    }
}

/// Position tracking for the global minimum: reports how many updates have
/// elapsed since the running minimum was last set.
pub struct ArgMin {
    pub min: crate::minimum::Min,
    pub count: crate::count::Count,
    pub argmin: usize,
}

impl ArgMin {
    /// A fresh tracker.
    pub fn new() -> (r: ArgMin)
        ensures
            r.inv(),
            r.hist() == Seq::<Ratio>::empty(),
    {
        ArgMin { min: crate::minimum::Min::new(), count: crate::count::Count::new(), argmin: 0 }
    }
}

impl Default for ArgMin {
    /// A fresh tracker.
    fn default() -> (r: ArgMin)
        ensures
            r.inv(),
            r.hist() == Seq::<Ratio>::empty(),
    {
        ArgMin::new()
    }
}

impl Univariate for ArgMin {
    open spec fn inv(&self) -> bool {
        &&& self.min.inv()
        &&& self.count.inv()
        &&& self.count.hist@ == self.min.hist@
        &&& self.argmin == age_of(self.min.hist@)
        &&& self.argmin <= self.min.hist@.len()
    }

    open spec fn hist(&self) -> Seq<Ratio> {
        self.min.hist@
    }

    open spec fn can_update(&self, x: Ratio) -> bool {
        self.count.can_update(x) && self.min.hist@.len() < usize::MAX
    }

    open spec fn can_get(&self) -> bool {
        true
    }

    open spec fn stat(&self) -> Ratio {
        int_r(age_of(self.min.hist@))
    }

    fn update(&mut self, x: &Rat) {
        proof {
            use_type_invariant(&*x);
            Rat::lemma_inv_in64(*x);
            assert(self.min.hist@.push(x@).drop_last() =~= self.min.hist@);
        }
        if self.count.total() == 0 {
            self.min.update(x);
            self.count.update(x);
            self.argmin = 0;
        } else {
            let min_old = self.min.min;
            self.min.update(x);
            self.count.update(x);
            if x.lt(&min_old) {
                self.argmin = 0;
            } else {
                self.argmin = self.argmin + 1;
            }
        }
    }

    fn get(&self) -> (r: Rat) {
        proof {
            assert(self.argmin as int <= i64::MAX as int);
        }
        Rat::from_i64(self.argmin as i64)
    }
}

} // verus!
