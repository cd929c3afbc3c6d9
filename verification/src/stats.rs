//! The capability interfaces of the library: updatable univariate and
//! bivariate statistics, and revertable statistics that a rolling window can
//! drive backwards.
//!
//! Each trait describes an implementation through its specification
//! members: an invariant, the history of incorporated observations, the
//! value the statistic reports, and the arithmetic-range preconditions of
//! one more step.  How tightly the invariant pins the state to the history
//! is each implementation's own affair; the accumulators of this crate
//! state it exactly.

use vstd::prelude::*;

verus! {

use crate::rat::Rat;
use crate::ratio::{rat_eq, Ratio};

/// The error taxonomy of the library.  `InvalidParameter` is rejected at
/// construction time; `RevertUnderflow` reports an attempt to revert more
/// observations than were ever applied.
#[derive(Clone, Copy, Debug, PartialEq, Eq, Structural)]
pub enum Error {
    InvalidParameter,
    RevertUnderflow,
}

/// The position of the first entry of `s` whose value equals `x`
/// (out of range when there is none).
pub open spec fn first_eq(s: Seq<Ratio>, x: Ratio) -> int
    decreases s.len(),
{
    if s.len() == 0 {
        0
    } else if rat_eq(s[0], x) {
        0
    } else {
        1 + first_eq(s.drop_first(), x)
    }
}

/// When some entry of `s` equals `x` in value, `first_eq` lands on the first
/// of them.
pub proof fn lemma_first_eq(s: Seq<Ratio>, x: Ratio)
    requires
        exists|i: int| 0 <= i < s.len() && #[trigger] rat_eq(s[i], x),
    ensures
        0 <= first_eq(s, x) < s.len(),
        rat_eq(s[first_eq(s, x)], x),
    decreases s.len(),
{
    if !rat_eq(s[0], x) {
        let w = choose|i: int| 0 <= i < s.len() && #[trigger] rat_eq(s[i], x);
        assert(rat_eq(s.drop_first()[w - 1], x));
        lemma_first_eq(s.drop_first(), x);
    }
}

/// A statistic over one stream: incorporate an observation, read the current
/// value.
pub trait Univariate: Sized {
    /// Internal consistency of the accumulator state.
    spec fn inv(&self) -> bool;

    /// The observations incorporated so far, in arrival order.
    spec fn hist(&self) -> Seq<Ratio>;

    /// The arithmetic of one update stays within the 64-bit representation.
    spec fn can_update(&self, x: Ratio) -> bool;

    /// The current value may be read (some windowed statistics need at least
    /// one observation first).
    spec fn can_get(&self) -> bool;

    /// The mathematical value `get` reports.
    spec fn stat(&self) -> Ratio;

    /// What `get` may report: by default exactly the value of `stat`.  An
    /// implementation whose read is pinned only up to representation (the
    /// quantile estimator's pre-activation fallback) overrides this.
    open spec fn got(&self, v: Ratio) -> bool {
        rat_eq(v, self.stat())
    }

    /// Incorporates one observation.
    fn update(&mut self, x: &Rat)
        requires
            old(self).inv(),
            old(self).can_update(x@),
        ensures
            final(self).inv(),
            final(self).hist() == old(self).hist().push(x@),
    ;

    /// Reports the current value of the statistic.
    fn get(&self) -> (r: Rat)
        requires
            self.inv(),
            self.can_get(),
        ensures
            self.got(r@),
    ;
}

/// A statistic over a stream of pairs.
pub trait Bivariate: Sized {
    /// Internal consistency of the accumulator state.
    spec fn inv(&self) -> bool;

    /// The pairs incorporated so far, in arrival order.
    spec fn hist2(&self) -> Seq<(Ratio, Ratio)>;

    /// The arithmetic of one update stays within the 64-bit representation.
    spec fn can_update(&self, x: Ratio, y: Ratio) -> bool;

    /// The mathematical value `get` reports.
    spec fn stat(&self) -> Ratio;

    /// Incorporates one pair of observations.
    fn update(&mut self, x: &Rat, y: &Rat)
        requires
            old(self).inv(),
            old(self).can_update(x@, y@),
        ensures
            final(self).inv(),
            final(self).hist2() == old(self).hist2().push((x@, y@)),
    ;

    /// Reports the current value of the statistic.
    fn get(&self) -> (r: Rat)
        requires
            self.inv(),
        ensures
            rat_eq(r@, self.stat()),
    ;
}

/// A statistic whose updates can be undone: reverting a value that occurs in
/// the history removes its first value-equal occurrence; reverting with an
/// empty history reports `RevertUnderflow` and changes nothing.
pub trait Revertable: Univariate {
    /// The arithmetic of one revert stays within the 64-bit representation.
    spec fn can_revert(&self, x: Ratio) -> bool;

    /// The arithmetic of a revert of `e` followed by an update with `x`
    /// stays within the 64-bit representation.  A rolling window uses this
    /// to evict and insert in one step.
    spec fn can_cycle(&self, e: Ratio, x: Ratio) -> bool;

    /// A cycle premise covers its revert half.
    proof fn cycle_implies_revert(&self, e: Ratio, x: Ratio)
        requires
            self.can_cycle(e, x),
        ensures
            self.can_revert(e),
    ;

    /// Undoes one earlier observation.
    fn revert(&mut self, x: &Rat) -> (r: Result<(), Error>)
        requires
            old(self).inv(),
            old(self).can_revert(x@),
            old(self).hist().len() > 0 ==> exists|i: int|
                0 <= i < old(self).hist().len() && #[trigger] rat_eq(old(self).hist()[i], x@),
        ensures
            final(self).inv(),
            old(self).hist().len() == 0 ==> r == Err::<(), Error>(Error::RevertUnderflow)
                && *final(self) == *old(self),
            old(self).hist().len() > 0 ==> r == Ok::<(), Error>(()) && final(self).hist() == old(
                self,
            ).hist().remove(first_eq(old(self).hist(), x@)),
            old(self).hist().len() > 0 ==> forall|y: Ratio|
                old(self).can_cycle(x@, y) ==> final(self).can_update(y),
    ;
}

/// A statistic that both updates and reverts, fit for a rolling window.
pub trait RollableUnivariate: Revertable {

}

} // verus!
