//! Generic rolling adapter: turns any revertable statistic into a windowed
//! one by reverting the evicted observation before each insertion.

use vstd::prelude::*;

verus! {

use crate::rat::Rat;
use crate::ratio::{rat_eq, Ratio};
use crate::sorted_window::views;
use crate::stats::{Error, RollableUnivariate, Univariate};

/// Wraps a revertable accumulator and a bounded FIFO of raw observations;
/// the accumulator's state always reflects exactly the FIFO's contents.  A
/// revert can therefore never fail, and the wrapped statistic reads as if it
/// had only ever seen the last `window_size` observations.
pub struct Rolling<T> {
    pub to_roll: T,
    pub window_size: usize,
    pub window: Vec<Rat>,
    pub seen: Ghost<Seq<Ratio>>,
}

impl<T: RollableUnivariate> Rolling<T> {
    /// Wraps a fresh accumulator; a zero window is rejected.
    pub fn new(to_roll: T, window_size: usize) -> (r: Result<Rolling<T>, Error>)
        requires
            to_roll.inv(),
            to_roll.hist().len() == 0,
        ensures
            r is Ok <==> window_size >= 1,
            r is Ok ==> r->Ok_0.inv() && r->Ok_0.hist() == Seq::<Ratio>::empty()
                && r->Ok_0.window_size == window_size,
    {
        if window_size == 0 {
            return Err(Error::InvalidParameter);
        }
        let r = Rolling { to_roll, window_size, window: Vec::new(), seen: Ghost(Seq::empty()) };
        proof {
            assert(views(r.window@) =~= Seq::<Ratio>::empty());
            assert(r.to_roll.hist() =~= views(r.window@));
            assert(views(r.window@) =~= r.seen@.skip(r.seen@.len() - r.window@.len()));
        }
        Ok(r)
    }
}

impl<T: RollableUnivariate> Univariate for Rolling<T> {
    open spec fn inv(&self) -> bool {
        &&& self.to_roll.inv()
        &&& 1 <= self.window_size
        &&& self.window@.len() <= self.window_size
        &&& self.to_roll.hist() == views(self.window@)
        &&& views(self.window@) == self.seen@.skip(self.seen@.len() - self.window@.len())
        &&& self.window@.len() == vstd::math::min(
            self.seen@.len() as int,
            self.window_size as int,
        )
    }

    open spec fn hist(&self) -> Seq<Ratio> {
        self.seen@
    }

    open spec fn can_update(&self, x: Ratio) -> bool {
        if self.window@.len() == self.window_size {
            self.to_roll.can_cycle(self.window@[0]@, x)
        } else {
            self.to_roll.can_update(x)
        }
    }

    open spec fn can_get(&self) -> bool {
        self.to_roll.can_get()
    }

    open spec fn stat(&self) -> Ratio {
        self.to_roll.stat()
    }

    open spec fn got(&self, v: Ratio) -> bool {
        self.to_roll.got(v)
    }

    fn update(&mut self, x: &Rat)
        ensures
            final(self).window_size == old(self).window_size,
            views(final(self).window@) == (if old(self).window@.len() == old(self).window_size {
                views(old(self).window@).drop_first().push(x@)
            } else {
                views(old(self).window@).push(x@)
            }),
    {
        if self.window.len() == self.window_size {
            let evicted = self.window[0];
            proof {
                self.to_roll.cycle_implies_revert(evicted@, x@);
                assert(self.window@.len() > 0);
                assert(self.to_roll.hist()[0] == views(self.window@)[0]);
                assert(rat_eq(self.to_roll.hist()[0], evicted@));
            }
            let _ = self.to_roll.revert(&evicted);
            self.window.remove(0);
            self.window.push(*x);
            proof {
                assert(crate::stats::first_eq(views(old(self).window@), evicted@) == 0);
                assert(views(self.window@) =~= views(old(self).window@).remove(0).push(x@));
            }
        } else {
            self.window.push(*x);
            proof {
                assert(views(self.window@) =~= views(old(self).window@).push(x@));
            }
        }
        self.to_roll.update(x);
        proof {
            self.seen@ = self.seen@.push(x@);
            assert(views(self.window@) =~= self.seen@.skip(
                self.seen@.len() - self.window@.len(),
            ));
        }
    }

    fn get(&self) -> (r: Rat) {
        self.to_roll.get()
    }
}

} // verus!
