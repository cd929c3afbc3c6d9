//! Streaming quantile estimation with the P-square marker algorithm, and the
//! exact rolling quantile over a sorted window.

use vstd::prelude::*;

verus! {

use crate::rat::Rat;
use crate::ratio::{add_fits, add_r, add_v, div_fits, div_r, div_v, gcd, in64, int_r,
    lemma_lt_le_trans, lemma_le_trans, mul_fits, mul_r, mul_v, norm2, rat_eq, rat_le, rat_lt, rwf,
    sub_fits, sub_r, sub_v, Ratio};
use crate::sorted_window::{sorted_vals, views, SortedWindow};
use crate::stats::{Error, Univariate};

/// Streaming estimate of the `q`-quantile by the P-square algorithm: five
/// marker heights track the distribution; each update moves one bracket and
/// nudges the interior markers by a parabolic (or, near ties, linear)
/// adjustment.  Marker adjustments whose exact arithmetic would leave the
/// 64-bit representation are skipped for that step.
pub struct Quantile {
    pub q: Rat,
    pub desired: Vec<Rat>,
    pub marker: Vec<Rat>,
    pub position: Vec<i64>,
    pub heights: Vec<Rat>,
    pub heights_sorted: bool,
    pub hist: Ghost<Seq<Ratio>>,
}

impl Quantile {
    /// Builds the estimator; rejects a quantile fraction outside `[0, 1]`
    /// (or one whose derived marker constants cannot be represented).
    pub fn new(q: &Rat) -> (r: Result<Quantile, Error>)
        ensures
            (rat_le(int_r(0), q@) && rat_le(q@, int_r(1)) && new_fits(q@)) <==> r is Ok,
            r is Ok ==> r->Ok_0.inv() && fresh_quantile(r->Ok_0, q@),
    {
        proof {
            use_type_invariant(&*q);
            Rat::lemma_inv_in64(*q);
        }
        let zero = Rat::zero();
        let one = Rat::from_int(1);
        let two = Rat::from_int(2);
        if zero.le(q) && q.le(&one) {
            let half_q = match q.checked_div(&two) {
                Some(v) => v,
                None => { return Err(Error::InvalidParameter) },
            };
            let one_q = match one.checked_add(q) {
                Some(v) => v,
                None => { return Err(Error::InvalidParameter) },
            };
            let half_one_q = match one_q.checked_div(&two) {
                Some(v) => v,
                None => { return Err(Error::InvalidParameter) },
            };
            let two_q = match two.checked_mul(q) {
                Some(v) => v,
                None => { return Err(Error::InvalidParameter) },
            };
            let four_q = match Rat::from_int(4).checked_mul(q) {
                Some(v) => v,
                None => { return Err(Error::InvalidParameter) },
            };
            let m1 = match one.checked_add(&two_q) {
                Some(v) => v,
                None => { return Err(Error::InvalidParameter) },
            };
            let m2 = match one.checked_add(&four_q) {
                Some(v) => v,
                None => { return Err(Error::InvalidParameter) },
            };
            let m3 = match Rat::from_int(3).checked_add(&two_q) {
                Some(v) => v,
                None => { return Err(Error::InvalidParameter) },
            };
            let mut desired: Vec<Rat> = Vec::new();
            desired.push(zero);
            desired.push(half_q);
            desired.push(*q);
            desired.push(half_one_q);
            desired.push(one);
            let mut marker: Vec<Rat> = Vec::new();
            marker.push(one);
            marker.push(m1);
            marker.push(m2);
            marker.push(m3);
            marker.push(Rat::from_int(5));
            let mut position: Vec<i64> = Vec::new();
            position.push(1);
            position.push(2);
            position.push(3);
            position.push(4);
            position.push(5);
            let out = Quantile {
                q: *q,
                desired,
                marker,
                position,
                heights: Vec::new(),
                heights_sorted: false,
                hist: Ghost(Seq::empty()),
            };
            proof {
                assert(views(Seq::<Rat>::empty()) =~= Seq::<Ratio>::empty());
                assert(views(out.desired@) =~= seq![
                    int_r(0),
                    div_v(q@, int_r(2)),
                    q@,
                    div_v(add_v(int_r(1), q@), int_r(2)),
                    int_r(1),
                ]);
                assert(views(out.marker@) =~= seq![
                    int_r(1),
                    add_v(int_r(1), mul_v(int_r(2), q@)),
                    add_v(int_r(1), mul_v(int_r(4), q@)),
                    add_v(int_r(3), mul_v(int_r(2), q@)),
                    int_r(5),
                ]);
                assert(out.position@ =~= seq![1i64, 2i64, 3i64, 4i64, 5i64]);
            }
            Ok(out)
        } else {
            Err(Error::InvalidParameter)
        }
    }

    /// Sorts the five seeded heights through a fresh sorted window.
    fn sort_heights(&mut self)
        requires
            old(self).inv(),
            old(self).heights@.len() == 5,
        ensures
            final(self).inv(),
            final(self).heights@.len() == 5,
            sorted_vals(views(final(self).heights@)),
            views(final(self).heights@).to_multiset() == views(old(self).heights@).to_multiset(),
            final(self).hist@ == old(self).hist@,
            final(self).q == old(self).q,
            final(self).marker@ == old(self).marker@,
            final(self).desired@ == old(self).desired@,
            final(self).position@ == old(self).position@,
            final(self).heights_sorted,
    {
        let mut w = SortedWindow::new(5);
        w.push_back(self.heights[0]);
        w.push_back(self.heights[1]);
        w.push_back(self.heights[2]);
        w.push_back(self.heights[3]);
        w.push_back(self.heights[4]);
        proof {
            assert(w.window() =~= views(self.heights@));
        }
        let mut sorted: Vec<Rat> = Vec::new();
        sorted.push(w.at_rank(0));
        sorted.push(w.at_rank(1));
        sorted.push(w.at_rank(2));
        sorted.push(w.at_rank(3));
        sorted.push(w.at_rank(4));
        proof {
            assert(views(sorted@) =~= w.ranked());
            assert forall|j: int| 0 <= j < sorted@.len() implies in64(
                (#[trigger] sorted@[j])@,
            ) by {
                assert(sorted@[j]@ == w.ranked()[j]);
                assert(w.ranked()[j] == w.sorted@[j].0@);
            }
        }
        self.heights = sorted;
        self.heights_sorted = true;
    }
}

/// A freshly built estimator for the fraction `q`: per-step desired
/// increments `[0, q/2, q, (1+q)/2, 1]`, desired positions
/// `[1, 1+2q, 1+4q, 3+2q, 5]`, integer positions `[1..5]`, no heights yet.
pub open spec fn fresh_quantile(r: Quantile, q: Ratio) -> bool {
    &&& r.q@ == q
    &&& views(r.desired@) == seq![
        int_r(0),
        div_v(q, int_r(2)),
        q,
        div_v(add_v(int_r(1), q), int_r(2)),
        int_r(1),
    ]
    &&& views(r.marker@) == seq![
        int_r(1),
        add_v(int_r(1), mul_v(int_r(2), q)),
        add_v(int_r(1), mul_v(int_r(4), q)),
        add_v(int_r(3), mul_v(int_r(2), q)),
        int_r(5),
    ]
    &&& r.position@ == seq![1i64, 2i64, 3i64, 4i64, 5i64]
    &&& r.heights@.len() == 0
    &&& r.heights_sorted == false
    &&& r.hist@ == Seq::<Ratio>::empty()
}

/// The fallback rank of the sorted-index estimate over `len` seeds.
pub open spec fn fallback_idx(q: Ratio, len: int) -> int {
    let scaled = (q.n * len) / q.d;
    if scaled >= len - 1 {
        len - 1
    } else {
        scaled
    }
}

impl Default for Quantile {
    /// A fresh median estimator (`q = 1/2`).
    fn default() -> (r: Quantile)
        ensures
            r.inv(),
            fresh_quantile(r, Ratio { n: 1, d: 2 }),
    {
        let half = match Rat::new(1, 2) {
            Some(v) => v,
            None => {
                proof {
                    assert(false);
                }
                Rat::zero()
            },
        };
        proof {
            lemma_half_fits();
        }
        match Quantile::new(&half) {
            Ok(v) => v,
            Err(_) => {
                proof {
                    assert(false);
                }
                Quantile {
                    q: half,
                    desired: Vec::new(),
                    marker: Vec::new(),
                    position: Vec::new(),
                    heights: Vec::new(),
                    heights_sorted: false,
                    hist: Ghost(Seq::empty()),
                }
            },
        }
    }
}

/// The median fraction is in range and its marker constants are
/// representable.
proof fn lemma_half_fits()
    ensures
        rat_le(int_r(0), Ratio { n: 1, d: 2 }),
        rat_le(Ratio { n: 1, d: 2 }, int_r(1)),
        new_fits(Ratio { n: 1, d: 2 }),
{
    reveal_with_fuel(crate::ratio::gcd, 6);
    let h = Ratio { n: 1, d: 2 };
    assert(crate::ratio::div_r(h, int_r(2)) == Ratio { n: 1, d: 4 });
    assert(crate::ratio::gcd(1nat, 4nat) == 1nat);
    assert(crate::ratio::gcd(3nat, 2nat) == 1nat);
    assert(crate::ratio::gcd(3nat, 4nat) == 1nat);
    assert(crate::ratio::gcd(2nat, 2nat) == 2nat);
    assert(crate::ratio::gcd(4nat, 2nat) == 2nat);
    assert(crate::ratio::gcd(2nat, 1nat) == 1nat);
    assert(crate::ratio::gcd(3nat, 1nat) == 1nat);
    assert(crate::ratio::gcd(4nat, 1nat) == 1nat);
    assert(vstd::math::abs(1int) == 1nat);
    assert(vstd::math::abs(2int) == 2nat);
    assert(vstd::math::abs(3int) == 3nat);
    assert(vstd::math::abs(4int) == 4nat);
    assert(crate::ratio::norm2(1, 4) == Ratio { n: 1, d: 4 });
    assert(div_v(h, int_r(2)) == Ratio { n: 1, d: 4 });
    assert(crate::ratio::add_r(int_r(1), h) == Ratio { n: 3, d: 2 });
    assert(crate::ratio::norm2(3, 2) == Ratio { n: 3, d: 2 });
    assert(add_v(int_r(1), h) == Ratio { n: 3, d: 2 });
    assert(crate::ratio::div_r(Ratio { n: 3, d: 2 }, int_r(2)) == Ratio { n: 3, d: 4 });
    assert(crate::ratio::norm2(3, 4) == Ratio { n: 3, d: 4 });
    assert(div_v(Ratio { n: 3, d: 2 }, int_r(2)) == Ratio { n: 3, d: 4 });
    assert(crate::ratio::mul_r(int_r(2), h) == Ratio { n: 2, d: 2 });
    assert(crate::ratio::norm2(2, 2) == Ratio { n: 1, d: 1 });
    assert(mul_v(int_r(2), h) == Ratio { n: 1, d: 1 });
    assert(crate::ratio::mul_r(int_r(4), h) == Ratio { n: 4, d: 2 });
    assert(crate::ratio::norm2(4, 2) == Ratio { n: 2, d: 1 });
    assert(mul_v(int_r(4), h) == Ratio { n: 2, d: 1 });
    assert(crate::ratio::add_r(int_r(1), Ratio { n: 1, d: 1 }) == Ratio { n: 2, d: 1 });
    assert(crate::ratio::norm2(2, 1) == Ratio { n: 2, d: 1 });
    assert(add_v(int_r(1), Ratio { n: 1, d: 1 }) == Ratio { n: 2, d: 1 });
    assert(crate::ratio::add_r(int_r(1), Ratio { n: 2, d: 1 }) == Ratio { n: 3, d: 1 });
    assert(crate::ratio::norm2(3, 1) == Ratio { n: 3, d: 1 });
    assert(add_v(int_r(1), Ratio { n: 2, d: 1 }) == Ratio { n: 3, d: 1 });
    assert(crate::ratio::add_r(int_r(3), Ratio { n: 1, d: 1 }) == Ratio { n: 4, d: 1 });
    assert(crate::ratio::norm2(4, 1) == Ratio { n: 4, d: 1 });
    assert(add_v(int_r(3), Ratio { n: 1, d: 1 }) == Ratio { n: 4, d: 1 });
}

/// The quartile fractions are in range, ordered, and their marker constants
/// are representable.
pub proof fn lemma_quarters_fit()
    ensures
        rat_le(int_r(0), Ratio { n: 1, d: 4 }),
        rat_le(Ratio { n: 1, d: 4 }, int_r(1)),
        rat_le(int_r(0), Ratio { n: 3, d: 4 }),
        rat_le(Ratio { n: 3, d: 4 }, int_r(1)),
        rat_lt(Ratio { n: 1, d: 4 }, Ratio { n: 3, d: 4 }),
        new_fits(Ratio { n: 1, d: 4 }),
        new_fits(Ratio { n: 3, d: 4 }),
{
    lemma_quarter_low_fits();
    lemma_quarter_high_fits();
}

proof fn lemma_quarter_low_f1()
    ensures
        div_fits(Ratio { n: 1, d: 4 }, int_r(2)),
{
    reveal_with_fuel(gcd, 8);
    assert(div_r(Ratio { n: 1, d: 4 }, int_r(2)) == Ratio { n: 1, d: 8 });
    assert(vstd::math::abs(1int) == 1nat);
    assert(gcd(1nat, 8nat) == 1nat);
    crate::ratio::lemma_norm_eval(1, 8, 1, 1, 8);
}

proof fn lemma_quarter_low_f2()
    ensures
        add_fits(int_r(1), Ratio { n: 1, d: 4 }) && add_v(int_r(1), Ratio { n: 1, d: 4 }) == (Ratio { n: 5, d: 4 }),
{
    reveal_with_fuel(gcd, 8);
    assert(add_r(int_r(1), Ratio { n: 1, d: 4 }) == Ratio { n: 5, d: 4 });
    assert(vstd::math::abs(5int) == 5nat);
    assert(gcd(5nat, 4nat) == 1nat);
    crate::ratio::lemma_norm_eval(5, 4, 1, 5, 4);
}

proof fn lemma_quarter_low_f3()
    ensures
        div_fits(add_v(int_r(1), Ratio { n: 1, d: 4 }), int_r(2)),
{
    reveal_with_fuel(gcd, 8);
    lemma_quarter_low_f2();
    assert(div_r(Ratio { n: 5, d: 4 }, int_r(2)) == Ratio { n: 5, d: 8 });
    assert(vstd::math::abs(5int) == 5nat);
    assert(gcd(5nat, 8nat) == 1nat);
    crate::ratio::lemma_norm_eval(5, 8, 1, 5, 8);
}

proof fn lemma_quarter_low_f4()
    ensures
        mul_fits(int_r(2), Ratio { n: 1, d: 4 }) && mul_v(int_r(2), Ratio { n: 1, d: 4 }) == (Ratio { n: 1, d: 2 }),
{
    reveal_with_fuel(gcd, 8);
    assert(mul_r(int_r(2), Ratio { n: 1, d: 4 }) == Ratio { n: 2, d: 4 });
    assert(vstd::math::abs(2int) == 2nat);
    assert(gcd(2nat, 4nat) == 2nat);
    crate::ratio::lemma_norm_eval(2, 4, 2, 1, 2);
}

proof fn lemma_quarter_low_f5()
    ensures
        mul_fits(int_r(4), Ratio { n: 1, d: 4 }) && mul_v(int_r(4), Ratio { n: 1, d: 4 }) == (Ratio { n: 1, d: 1 }),
{
    reveal_with_fuel(gcd, 8);
    assert(mul_r(int_r(4), Ratio { n: 1, d: 4 }) == Ratio { n: 4, d: 4 });
    assert(vstd::math::abs(4int) == 4nat);
    assert(gcd(4nat, 4nat) == 4nat);
    crate::ratio::lemma_norm_eval(4, 4, 4, 1, 1);
}

proof fn lemma_quarter_low_f6()
    ensures
        add_fits(int_r(1), mul_v(int_r(2), Ratio { n: 1, d: 4 })),
{
    reveal_with_fuel(gcd, 8);
    lemma_quarter_low_f4();
    assert(add_r(int_r(1), Ratio { n: 1, d: 2 }) == Ratio { n: 3, d: 2 });
    assert(vstd::math::abs(3int) == 3nat);
    assert(gcd(3nat, 2nat) == 1nat);
    crate::ratio::lemma_norm_eval(3, 2, 1, 3, 2);
}

proof fn lemma_quarter_low_f7()
    ensures
        add_fits(int_r(1), mul_v(int_r(4), Ratio { n: 1, d: 4 })),
{
    reveal_with_fuel(gcd, 8);
    lemma_quarter_low_f5();
    assert(add_r(int_r(1), Ratio { n: 1, d: 1 }) == Ratio { n: 2, d: 1 });
    assert(vstd::math::abs(2int) == 2nat);
    assert(gcd(2nat, 1nat) == 1nat);
    crate::ratio::lemma_norm_eval(2, 1, 1, 2, 1);
}

proof fn lemma_quarter_low_f8()
    ensures
        add_fits(int_r(3), mul_v(int_r(2), Ratio { n: 1, d: 4 })),
{
    reveal_with_fuel(gcd, 8);
    lemma_quarter_low_f4();
    assert(add_r(int_r(3), Ratio { n: 1, d: 2 }) == Ratio { n: 7, d: 2 });
    assert(vstd::math::abs(7int) == 7nat);
    assert(gcd(7nat, 2nat) == 1nat);
    crate::ratio::lemma_norm_eval(7, 2, 1, 7, 2);
}

/// The marker constants of the fraction 1/4 are representable.
proof fn lemma_quarter_low_fits()
    ensures
        new_fits(Ratio { n: 1, d: 4 }),
{
    lemma_quarter_low_f1();
    lemma_quarter_low_f2();
    lemma_quarter_low_f3();
    lemma_quarter_low_f4();
    lemma_quarter_low_f5();
    lemma_quarter_low_f6();
    lemma_quarter_low_f7();
    lemma_quarter_low_f8();
}

proof fn lemma_quarter_high_f1()
    ensures
        div_fits(Ratio { n: 3, d: 4 }, int_r(2)),
{
    reveal_with_fuel(gcd, 8);
    assert(div_r(Ratio { n: 3, d: 4 }, int_r(2)) == Ratio { n: 3, d: 8 });
    assert(vstd::math::abs(3int) == 3nat);
    assert(gcd(3nat, 8nat) == 1nat);
    crate::ratio::lemma_norm_eval(3, 8, 1, 3, 8);
}

proof fn lemma_quarter_high_f2()
    ensures
        add_fits(int_r(1), Ratio { n: 3, d: 4 }) && add_v(int_r(1), Ratio { n: 3, d: 4 }) == (Ratio { n: 7, d: 4 }),
{
    reveal_with_fuel(gcd, 8);
    assert(add_r(int_r(1), Ratio { n: 3, d: 4 }) == Ratio { n: 7, d: 4 });
    assert(vstd::math::abs(7int) == 7nat);
    assert(gcd(7nat, 4nat) == 1nat);
    crate::ratio::lemma_norm_eval(7, 4, 1, 7, 4);
}

proof fn lemma_quarter_high_f3()
    ensures
        div_fits(add_v(int_r(1), Ratio { n: 3, d: 4 }), int_r(2)),
{
    reveal_with_fuel(gcd, 8);
    lemma_quarter_high_f2();
    assert(div_r(Ratio { n: 7, d: 4 }, int_r(2)) == Ratio { n: 7, d: 8 });
    assert(vstd::math::abs(7int) == 7nat);
    assert(gcd(7nat, 8nat) == 1nat);
    crate::ratio::lemma_norm_eval(7, 8, 1, 7, 8);
}

proof fn lemma_quarter_high_f4()
    ensures
        mul_fits(int_r(2), Ratio { n: 3, d: 4 }) && mul_v(int_r(2), Ratio { n: 3, d: 4 }) == (Ratio { n: 3, d: 2 }),
{
    reveal_with_fuel(gcd, 8);
    assert(mul_r(int_r(2), Ratio { n: 3, d: 4 }) == Ratio { n: 6, d: 4 });
    assert(vstd::math::abs(6int) == 6nat);
    assert(gcd(6nat, 4nat) == 2nat);
    crate::ratio::lemma_norm_eval(6, 4, 2, 3, 2);
}

proof fn lemma_quarter_high_f5()
    ensures
        mul_fits(int_r(4), Ratio { n: 3, d: 4 }) && mul_v(int_r(4), Ratio { n: 3, d: 4 }) == (Ratio { n: 3, d: 1 }),
{
    reveal_with_fuel(gcd, 8);
    assert(mul_r(int_r(4), Ratio { n: 3, d: 4 }) == Ratio { n: 12, d: 4 });
    assert(vstd::math::abs(12int) == 12nat);
    assert(gcd(12nat, 4nat) == 4nat);
    crate::ratio::lemma_norm_eval(12, 4, 4, 3, 1);
}

proof fn lemma_quarter_high_f6()
    ensures
        add_fits(int_r(1), mul_v(int_r(2), Ratio { n: 3, d: 4 })),
{
    reveal_with_fuel(gcd, 8);
    lemma_quarter_high_f4();
    assert(add_r(int_r(1), Ratio { n: 3, d: 2 }) == Ratio { n: 5, d: 2 });
    assert(vstd::math::abs(5int) == 5nat);
    assert(gcd(5nat, 2nat) == 1nat);
    crate::ratio::lemma_norm_eval(5, 2, 1, 5, 2);
}

proof fn lemma_quarter_high_f7()
    ensures
        add_fits(int_r(1), mul_v(int_r(4), Ratio { n: 3, d: 4 })),
{
    reveal_with_fuel(gcd, 8);
    lemma_quarter_high_f5();
    assert(add_r(int_r(1), Ratio { n: 3, d: 1 }) == Ratio { n: 4, d: 1 });
    assert(vstd::math::abs(4int) == 4nat);
    assert(gcd(4nat, 1nat) == 1nat);
    crate::ratio::lemma_norm_eval(4, 1, 1, 4, 1);
}

proof fn lemma_quarter_high_f8()
    ensures
        add_fits(int_r(3), mul_v(int_r(2), Ratio { n: 3, d: 4 })),
{
    reveal_with_fuel(gcd, 8);
    lemma_quarter_high_f4();
    assert(add_r(int_r(3), Ratio { n: 3, d: 2 }) == Ratio { n: 9, d: 2 });
    assert(vstd::math::abs(9int) == 9nat);
    assert(gcd(9nat, 2nat) == 1nat);
    crate::ratio::lemma_norm_eval(9, 2, 1, 9, 2);
}

/// The marker constants of the fraction 3/4 are representable.
proof fn lemma_quarter_high_fits()
    ensures
        new_fits(Ratio { n: 3, d: 4 }),
{
    lemma_quarter_high_f1();
    lemma_quarter_high_f2();
    lemma_quarter_high_f3();
    lemma_quarter_high_f4();
    lemma_quarter_high_f5();
    lemma_quarter_high_f6();
    lemma_quarter_high_f7();
    lemma_quarter_high_f8();
}

/// The derived marker constants of a quantile fraction stay representable.
pub open spec fn new_fits(q: Ratio) -> bool {
    &&& div_fits(q, int_r(2))
    &&& add_fits(int_r(1), q)
    &&& div_fits(add_v(int_r(1), q), int_r(2))
    &&& mul_fits(int_r(2), q)
    &&& mul_fits(int_r(4), q)
    &&& add_fits(int_r(1), mul_v(int_r(2), q))
    &&& add_fits(int_r(1), mul_v(int_r(4), q))
    &&& add_fits(int_r(3), mul_v(int_r(2), q))
}

impl Univariate for Quantile {
    open spec fn inv(&self) -> bool {
        &&& rat_le(int_r(0), self.q@) && rat_le(self.q@, int_r(1))
        &&& self.desired@.len() == 5
        &&& self.marker@.len() == 5
        &&& self.position@.len() == 5
        &&& self.heights@.len() <= 5
        &&& (forall|i: int| 0 <= i < self.heights@.len() ==> in64((#[trigger] self.heights@[i])@))
        &&& (self.heights_sorted ==> self.heights@.len() == 5 && sorted_vals(views(self.heights@)))
        &&& (!self.heights_sorted ==> views(self.heights@) == self.hist@)
    }

    open spec fn hist(&self) -> Seq<Ratio> {
        self.hist@
    }

    open spec fn can_update(&self, x: Ratio) -> bool {
        true
    }

    open spec fn can_get(&self) -> bool {
        self.heights_sorted || self.heights@.len() > 0
    }

    open spec fn stat(&self) -> Ratio {
        views(self.heights@)[2]
    }

    open spec fn got(&self, v: Ratio) -> bool {
        if self.heights_sorted {
            rat_eq(v, views(self.heights@)[2])
        } else {
            exists|hs: Seq<Ratio>|
                {
                    &&& sorted_vals(hs)
                    &&& hs.to_multiset() == views(self.heights@).to_multiset()
                    &&& rat_eq(v, hs[fallback_idx(self.q@, self.heights@.len() as int)])
                }
        }
    }

    fn update(&mut self, x: &Rat)
        ensures
            q_stepped(*old(self), *final(self), *x),
    {
        self.step(x);
    }

    fn get(&self) -> (r: Rat) {
        if self.heights_sorted {
            proof {
                assert(views(self.heights@)[2] == self.heights@[2]@);
            }
            self.heights[2]
        } else {
            // the sorted-index fallback over the seeds
            proof {
                use_type_invariant(&self.q);
                Rat::lemma_inv_in64(self.q);
            }
            let len = self.heights.len();
            let qn = self.q.num();
            let qd = self.q.den();
            proof {
                assert(qn >= 0) by (nonlinear_arith)
                    requires
                        0 * (self.q@.d) <= qn * 1,
                {
                }
                assert(qn as i128 * (len as i128) <= i64::MAX as i128 * 5) by (nonlinear_arith)
                    requires
                        0 <= qn <= i64::MAX,
                        0 <= len as i128 <= 5,
                {
                }
                assert(0 <= (qn as int * (len as int)) / (qd as int)) by (nonlinear_arith)
                    requires
                        0 <= qn as int * (len as int),
                        1 <= qd as int,
                {
                }
            }
            let scaled: i128 = (qn as i128) * (len as i128) / (qd as i128);
            let idx: usize = if scaled >= len as i128 - 1 {
                len - 1
            } else {
                scaled as usize
            };
            let mut w = SortedWindow::new(5);
            let mut i: usize = 0;
            while i < len
                invariant
                    self.inv(),
                    !self.heights_sorted,
                    0 < len == self.heights@.len(),
                    0 <= i <= len,
                    w.wf(),
                    w.window_size == 5,
                    w.base + 5 < u64::MAX,
                    w.window() == views(self.heights@.subrange(0, i as int)),
                decreases len - i,
            {
                proof {
                    assert(views(self.heights@.subrange(0, i as int)).push(
                        self.heights@[i as int]@,
                    ) =~= views(self.heights@.subrange(0, i + 1)));
                }
                w.push_back(self.heights[i]);
                i = i + 1;
            }
            proof {
                assert(self.heights@.subrange(0, len as int) =~= self.heights@);
                assert(idx < len);
            }
            let r = w.at_rank(idx);
            proof {
                assert(sorted_vals(w.ranked()));
                assert(w.ranked().to_multiset() == views(self.heights@).to_multiset());
            }
            r
        }
    }
}

/// The exact transition of one observation through the estimator: seeds
/// accumulate unchanged until five have arrived; the sixth observation first
/// sorts the seeds (a value permutation) and every active observation
/// performs exactly one P-square step.  The fraction, the per-step
/// increments and the history bookkeeping are fixed alongside.
pub open spec fn q_stepped(pre: Quantile, post: Quantile, x: Rat) -> bool {
    &&& post.hist@ == pre.hist@.push(x@)
    &&& post.q == pre.q
    &&& post.desired@ == pre.desired@
    &&& ((!pre.heights_sorted && pre.heights@.len() < 5) ==> post.heights@ == pre.heights@.push(x)
        && post.position@ == pre.position@ && post.marker@ == pre.marker@
        && !post.heights_sorted)
    &&& (pre.heights_sorted ==> post.heights_sorted && views(post.heights@) == p2_step(
        views(pre.heights@),
        pre.position@,
        views(pre.marker@),
        views(pre.desired@),
        x@,
    ).0 && post.position@ == p2_step(
        views(pre.heights@),
        pre.position@,
        views(pre.marker@),
        views(pre.desired@),
        x@,
    ).1 && views(post.marker@) == p2_step(
        views(pre.heights@),
        pre.position@,
        views(pre.marker@),
        views(pre.desired@),
        x@,
    ).2)
    &&& ((!pre.heights_sorted && pre.heights@.len() == 5) ==> post.heights_sorted && (exists|
        hs: Seq<Ratio>,
    |
        {
            &&& sorted_vals(hs)
            &&& hs.to_multiset() == views(pre.heights@).to_multiset()
            &&& views(post.heights@) == p2_step(
                hs,
                pre.position@,
                views(pre.marker@),
                views(pre.desired@),
                x@,
            ).0
            &&& post.position@ == p2_step(
                hs,
                pre.position@,
                views(pre.marker@),
                views(pre.desired@),
                x@,
            ).1
            &&& views(post.marker@) == p2_step(
                hs,
                pre.position@,
                views(pre.marker@),
                views(pre.desired@),
                x@,
            ).2
        }))
}

/// One full P-square step over the five-marker state: the bracket of `x` is
/// found (clamping the extreme heights), the integer positions at or past it
/// are bumped, the desired positions advance by their increments, and the
/// three interior markers are adjusted in order.
pub open spec fn p2_step(
    hv0: Seq<Ratio>,
    p0: Seq<i64>,
    m0: Seq<Ratio>,
    d0: Seq<Ratio>,
    x: Ratio,
) -> (Seq<Ratio>, Seq<i64>, Seq<Ratio>) {
    let k = fk_k(hv0, x);
    let hv1 = fk_hv(hv0, x);
    let p1 = bump_pos(p0, k);
    let m1 = adv_m(m0, d0);
    let r1 = adj_res(hv1, p1, m1, 1);
    let r2 = adj_res(r1.0, r1.1, m1, 2);
    let r3 = adj_res(r2.0, r2.1, m1, 3);
    (r3.0, r3.1, m1)
}

impl Quantile {
    /// Incorporates one observation, promising the exact transition: seeds
    /// accumulate unchanged until five have arrived; the sixth observation
    /// first sorts the seeds (a value permutation) and every active
    /// observation then performs exactly one P-square step.
    pub fn step(&mut self, x: &Rat)
        requires
            old(self).inv(),
        ensures
            final(self).inv(),
            q_stepped(*old(self), *final(self), *x),
    {
        proof {
            use_type_invariant(&*x);
            Rat::lemma_inv_in64(*x);
        }
        if self.heights.len() != 5 {
            self.heights.push(*x);
            proof {
                self.hist@ = self.hist@.push(x@);
                assert(views(self.heights@) =~= self.hist@);
            }
            return ;
        }
        let ghost was_sorted = self.heights_sorted;
        if !self.heights_sorted {
            self.sort_heights();
        }
        let ghost hs = views(self.heights@);
        let ghost p0 = self.position@;
        let ghost m0 = views(self.marker@);
        let ghost d0 = views(self.desired@);
        let k = self.find_k(x);
        let ghost hv1 = views(self.heights@);
        self.bump_positions(k);
        let ghost p1 = self.position@;
        self.advance_markers();
        let ghost m1 = views(self.marker@);
        self.adjust_at(1);
        self.adjust_at(2);
        self.adjust_at(3);
        proof {
            self.hist@ = self.hist@.push(x@);
            assert(hv1 == fk_hv(hs, x@));
            assert(p1 == bump_pos(p0, fk_k(hs, x@) as int));
            assert(m1 == adv_m(m0, d0));
        }
    }
}

impl Quantile {
    /// Finds the bracket of `x` among the sorted heights, extending the
    /// extreme markers when `x` falls outside them.
    fn find_k(&mut self, x: &Rat) -> (k: usize)
        requires
            old(self).inv(),
            old(self).heights_sorted,
        ensures
            final(self).inv(),
            final(self).heights_sorted,
            1 <= k <= 4,
            k == fk_k(views(old(self).heights@), x@),
            views(final(self).heights@) == fk_hv(views(old(self).heights@), x@),
            rat_le(views(final(self).heights@)[k - 1], x@),
            k < 4 ==> rat_lt(x@, views(final(self).heights@)[k as int]),
            k == 4 ==> rat_le(x@, views(final(self).heights@)[4]),
            final(self).hist@ == old(self).hist@,
            final(self).q == old(self).q,
            final(self).marker@ == old(self).marker@,
            final(self).desired@ == old(self).desired@,
            final(self).position@ == old(self).position@,
            final(self).heights@.len() == 5,
    {
        proof {
            use_type_invariant(&*x);
            Rat::lemma_inv_in64(*x);
        }
        if x.lt(&self.heights[0]) {
            proof {
                lemma_heights_wf(self);
                let hv = views(self.heights@);
                assert(hv[0] == self.heights@[0]@ && hv[1] == self.heights@[1]@);
                lemma_lt_le_trans(x@, hv[0], hv[1]);
                lemma_sorted_update(hv, 0, x@);
                assert(views(self.heights@.update(0, *x)) =~= hv.update(0, x@));
            }
            self.heights.set(0, *x);
            1
        } else if x.lt(&self.heights[1]) {
            proof {
                lemma_heights_wf(self);
                let hv = views(self.heights@);
                assert(hv[1] == self.heights@[1]@ && hv[4] == self.heights@[4]@);
                lemma_lt_le_trans(x@, hv[1], hv[4]);
                assert(views(self.heights@) =~= fk_hv(hv, x@));
            }
            1
        } else if x.lt(&self.heights[2]) {
            proof {
                lemma_heights_wf(self);
                let hv = views(self.heights@);
                assert(hv[2] == self.heights@[2]@ && hv[4] == self.heights@[4]@);
                lemma_lt_le_trans(x@, hv[2], hv[4]);
                assert(views(self.heights@) =~= fk_hv(hv, x@));
            }
            2
        } else if x.lt(&self.heights[3]) {
            proof {
                lemma_heights_wf(self);
                let hv = views(self.heights@);
                assert(hv[3] == self.heights@[3]@ && hv[4] == self.heights@[4]@);
                lemma_lt_le_trans(x@, hv[3], hv[4]);
                assert(views(self.heights@) =~= fk_hv(hv, x@));
            }
            3
        } else if x.lt(&self.heights[4]) {
            proof {
                assert(views(self.heights@) =~= fk_hv(views(self.heights@), x@));
            }
            4
        } else {
            let top = self.heights[4];
            if top.lt(x) {
                proof {
                    lemma_heights_wf(self);
                    let hv = views(self.heights@);
                    assert(hv[3] == self.heights@[3]@ && hv[4] == self.heights@[4]@);
                    lemma_sorted_update(hv, 4, x@);
                    assert(views(self.heights@.update(4, *x)) =~= hv.update(4, x@));
                }
                self.heights.set(4, *x);
            } else {
                proof {
                    assert(views(self.heights@) =~= fk_hv(views(self.heights@), x@));
                }
            }
            4
        }
    }

    /// Increments the integer positions of every marker at or after `k`
    /// (a position already at the top of the range stays put).
    fn bump_positions(&mut self, k: usize)
        requires
            old(self).inv(),
            old(self).heights_sorted,
            1 <= k <= 4,
        ensures
            final(self).inv(),
            final(self).heights_sorted,
            final(self).hist@ == old(self).hist@,
            final(self).q == old(self).q,
            final(self).marker@ == old(self).marker@,
            final(self).desired@ == old(self).desired@,
            final(self).heights@ == old(self).heights@,
            final(self).position@ == bump_pos(old(self).position@, k as int),
    {
        let mut i: usize = k;
        while i < 5
            invariant
                old(self).inv(),
                self.position@.len() == 5,
                self.desired@ == old(self).desired@,
                self.marker@ == old(self).marker@,
                self.heights@ == old(self).heights@,
                self.heights_sorted == old(self).heights_sorted,
                self.hist@ == old(self).hist@,
                self.q == old(self).q,
                k <= i <= 5,
                forall|j: int|
                    0 <= j < 5 ==> self.position@[j] == (if k <= j < i && old(self).position@[j]
                        < i64::MAX {
                        (old(self).position@[j] + 1) as i64
                    } else {
                        old(self).position@[j]
                    }),
            decreases 5 - i,
        {
            let p = self.position[i];
            if p < i64::MAX {
                self.position.set(i, p + 1);
            }
            i = i + 1;
        }
        proof {
            assert(self.position@ =~= bump_pos(old(self).position@, k as int));
        }
    }

    /// Advances the desired marker positions by their per-step increments,
    /// skipping an increment that would leave the representation.
    fn advance_markers(&mut self)
        requires
            old(self).inv(),
            old(self).heights_sorted,
        ensures
            final(self).inv(),
            final(self).heights_sorted,
            final(self).hist@ == old(self).hist@,
            final(self).q == old(self).q,
            final(self).desired@ == old(self).desired@,
            final(self).heights@ == old(self).heights@,
            final(self).position@ == old(self).position@,
            views(final(self).marker@) == adv_m(
                views(old(self).marker@),
                views(old(self).desired@),
            ),
    {
        let mut i: usize = 0;
        while i < 5
            invariant
                old(self).inv(),
                self.marker@.len() == 5,
                self.desired@ == old(self).desired@,
                self.position@ == old(self).position@,
                self.heights@ == old(self).heights@,
                self.heights_sorted == old(self).heights_sorted,
                self.hist@ == old(self).hist@,
                self.q == old(self).q,
                0 <= i <= 5,
                forall|j: int|
                    0 <= j < 5 ==> (#[trigger] self.marker@[j])@ == (if j < i && add_fits(
                        old(self).marker@[j]@,
                        old(self).desired@[j]@,
                    ) {
                        add_v(old(self).marker@[j]@, old(self).desired@[j]@)
                    } else {
                        old(self).marker@[j]@
                    }),
            decreases 5 - i,
        {
            let m = self.marker[i];
            match m.checked_add(&self.desired[i]) {
                Some(v) => { self.marker.set(i, v) },
                None => {},
            }
            i = i + 1;
        }
        proof {
            assert(views(self.marker@) =~= adv_m(views(old(self).marker@), views(old(self).desired@)));
            assert forall|j: int| 0 <= j < 5 implies views(self.marker@)[j] == adv_m(
                views(old(self).marker@),
                views(old(self).desired@),
            )[j] by {
                assert(views(self.marker@)[j] == self.marker@[j]@);
                assert(views(old(self).marker@)[j] == old(self).marker@[j]@);
                assert(views(old(self).desired@)[j] == old(self).desired@[j]@);
            }
            assert(views(self.marker@) =~= adv_m(views(old(self).marker@), views(old(self).desired@)));
        }
    }

    /// Adjusts one interior marker by the P-square parabolic estimate, or a
    /// linear one when the parabola would break the height ordering; the
    /// adjustment is skipped when its exact arithmetic cannot be represented.
    fn adjust_at(&mut self, i: usize)
        requires
            old(self).inv(),
            old(self).heights_sorted,
            1 <= i <= 3,
        ensures
            final(self).inv(),
            final(self).heights_sorted,
            final(self).hist@ == old(self).hist@,
            final(self).q == old(self).q,
            final(self).marker@ == old(self).marker@,
            final(self).desired@ == old(self).desired@,
            views(final(self).heights@) == adj_res(
                views(old(self).heights@),
                old(self).position@,
                views(old(self).marker@),
                i as int,
            ).0,
            final(self).position@ == adj_res(
                views(old(self).heights@),
                old(self).position@,
                views(old(self).marker@),
                i as int,
            ).1,
    {
        proof {
            assert(in64(self.heights@[i - 1]@));
            assert(in64(self.heights@[i as int]@));
            assert(in64(self.heights@[i + 1]@));
            assert(views(self.heights@)[i - 1] == self.heights@[i - 1]@);
            assert(views(self.heights@)[i as int] == self.heights@[i as int]@);
            assert(views(self.heights@)[i + 1] == self.heights@[i + 1]@);
            assert(views(self.marker@)[i as int] == self.marker@[i as int]@);
        }
        let n = self.position[i];
        let np1 = self.position[i + 1];
        let nm1 = self.position[i - 1];
        let nr = match Rat::new(n, 1) {
            Some(v) => v,
            None => { return ; },
        };
        let d = match self.marker[i].checked_sub(&nr) {
            Some(v) => v,
            None => { return ; },
        };
        let one = Rat::from_int(1);
        let neg_one = Rat::from_int(-1);
        let go_up = one.le(&d) && (np1 as i128) - (n as i128) > 1;
        let go_down = d.le(&neg_one) && (nm1 as i128) - (n as i128) < -1;
        if !(go_up || go_down) {
            return ;
        }
        let q = self.heights[i];
        let qp1 = self.heights[i + 1];
        let qm1 = self.heights[i - 1];
        // try the parabolic estimate first
        let cand = self.compute_p2(i, go_up);
        let chosen = match cand {
            Some(v) => {
                if qm1.lt(&v) && v.lt(&qp1) {
                    Some(v)
                } else {
                    self.linear_estimate(i, go_up)
                }
            },
            None => { self.linear_estimate(i, go_up) },
        };
        match chosen {
            Some(v) => {
                if qm1.le(&v) && v.le(&qp1) {
                    proof {
                        use_type_invariant(&v);
                        Rat::lemma_inv_in64(v);
                        lemma_heights_wf(self);
                        let hv = views(self.heights@);
                        assert(hv[i - 1] == self.heights@[i - 1]@ && hv[i + 1] == self.heights@[i
                            + 1]@ && hv[i as int] == self.heights@[i as int]@);
                        lemma_sorted_update(hv, i as int, v@);
                        assert(views(self.heights@.update(i as int, v)) =~= hv.update(
                            i as int,
                            v@,
                        ));
                    }
                    self.heights.set(i, v);
                }
            },
            None => {},
        }
        let nn = self.position[i];
        if go_up {
            if nn < i64::MAX {
                self.position.set(i, nn + 1);
            }
        } else {
            if nn > -i64::MAX {
                self.position.set(i, nn - 1);
            }
        }
    }

    /// The P-square parabolic height estimate for marker `i`, when it can be
    /// computed exactly in the representation.
    fn compute_p2(&self, i: usize, go_up: bool) -> (r: Option<Rat>)
        requires
            self.inv(),
            self.heights_sorted,
            1 <= i <= 3,
        ensures
            r is Some <==> p2_cand(
                views(self.heights@),
                self.position@,
                i as int,
                go_up,
            ) is Some,
            r is Some ==> r->0@ == p2_cand(
                views(self.heights@),
                self.position@,
                i as int,
                go_up,
            )->0,
    {
        proof {
            assert(views(self.heights@)[i - 1] == self.heights@[i - 1]@);
            assert(views(self.heights@)[i as int] == self.heights@[i as int]@);
            assert(views(self.heights@)[i + 1] == self.heights@[i + 1]@);
        }
        let n = self.position[i];
        let np1 = self.position[i + 1];
        let nm1 = self.position[i - 1];
        if np1 == nm1 || np1 == n || n == nm1 {
            return None;
        }
        if np1 < -i64::MAX || nm1 < -i64::MAX || n < -i64::MAX {
            return None;
        }
        let q = self.heights[i];
        let qp1 = self.heights[i + 1];
        let qm1 = self.heights[i - 1];
        let d = if go_up {
            Rat::from_int(1)
        } else {
            Rat::from_int(-1)
        };
        let rn = Rat::from_i64(n);
        let rnp1 = Rat::from_i64(np1);
        let rnm1 = Rat::from_i64(nm1);
        let den_outer = match rnp1.checked_sub(&rnm1) {
            Some(v) => v,
            None => { return None },
        };
        let outer = match d.checked_div(&den_outer) {
            Some(v) => v,
            None => { return None },
        };
        let nd = match rn.checked_sub(&rnm1) {
            Some(v) => v,
            None => { return None },
        };
        let ndd = match nd.checked_add(&d) {
            Some(v) => v,
            None => { return None },
        };
        let dq1 = match qp1.checked_sub(&q) {
            Some(v) => v,
            None => { return None },
        };
        let num_left = match ndd.checked_mul(&dq1) {
            Some(v) => v,
            None => { return None },
        };
        let den_left = match rnp1.checked_sub(&rn) {
            Some(v) => v,
            None => { return None },
        };
        let inner_left = match num_left.checked_div(&den_left) {
            Some(v) => v,
            None => { return None },
        };
        let ndd2 = match den_left.checked_sub(&d) {
            Some(v) => v,
            None => { return None },
        };
        let dq2 = match q.checked_sub(&qm1) {
            Some(v) => v,
            None => { return None },
        };
        let num_right = match ndd2.checked_mul(&dq2) {
            Some(v) => v,
            None => { return None },
        };
        let inner_right = match num_right.checked_div(&nd) {
            Some(v) => v,
            None => { return None },
        };
        let inner = match inner_left.checked_add(&inner_right) {
            Some(v) => v,
            None => { return None },
        };
        let scaled = match outer.checked_mul(&inner) {
            Some(v) => v,
            None => { return None },
        };
        q.checked_add(&scaled)
    }

    /// The linear fallback estimate for marker `i`.
    fn linear_estimate(&self, i: usize, go_up: bool) -> (r: Option<Rat>)
        requires
            self.inv(),
            self.heights_sorted,
            1 <= i <= 3,
        ensures
            r is Some <==> lin_cand(
                views(self.heights@),
                self.position@,
                i as int,
                go_up,
            ) is Some,
            r is Some ==> r->0@ == lin_cand(
                views(self.heights@),
                self.position@,
                i as int,
                go_up,
            )->0,
    {
        proof {
            assert(views(self.heights@)[i - 1] == self.heights@[i - 1]@);
            assert(views(self.heights@)[i as int] == self.heights@[i as int]@);
            assert(views(self.heights@)[i + 1] == self.heights@[i + 1]@);
        }
        let target = if go_up {
            i + 1
        } else {
            i - 1
        };
        let n = self.position[i];
        let nt = self.position[target];
        if nt == n || nt < -i64::MAX || n < -i64::MAX {
            return None;
        }
        let d = if go_up {
            Rat::from_int(1)
        } else {
            Rat::from_int(-1)
        };
        let q = self.heights[i];
        let dh = match self.heights[target].checked_sub(&q) {
            Some(v) => v,
            None => { return None },
        };
        let dn = match Rat::from_i64(nt).checked_sub(&Rat::from_i64(n)) {
            Some(v) => v,
            None => { return None },
        };
        let slope = match dh.checked_div(&dn) {
            Some(v) => v,
            None => { return None },
        };
        let step = match d.checked_mul(&slope) {
            Some(v) => v,
            None => { return None },
        };
        q.checked_add(&step)
    }
}

/// The height views of a well-formed estimator/// The bracket index of `x` among five sorted heights, as `find_k` computes
/// it.
pub open spec fn fk_k(hv: Seq<Ratio>, x: Ratio) -> int {
    if rat_lt(x, hv[0]) {
        1
    } else if rat_lt(x, hv[1]) {
        1
    } else if rat_lt(x, hv[2]) {
        2
    } else if rat_lt(x, hv[3]) {
        3
    } else {
        4
    }
}

/// The heights after `find_k` clamps the extreme markers to `x`.
pub open spec fn fk_hv(hv: Seq<Ratio>, x: Ratio) -> Seq<Ratio> {
    if rat_lt(x, hv[0]) {
        hv.update(0, x)
    } else if rat_lt(hv[4], x) {
        hv.update(4, x)
    } else {
        hv
    }
}

/// The integer positions after every marker at or past `k` is bumped.
pub open spec fn bump_pos(p: Seq<i64>, k: int) -> Seq<i64> {
    Seq::new(
        p.len(),
        |i: int|
            if i >= k && p[i] < i64::MAX {
                (p[i] + 1) as i64
            } else {
                p[i]
            },
    )
}

/// The desired marker positions after one advance by the per-step
/// increments (an increment that would not fit is skipped).
pub open spec fn adv_m(m: Seq<Ratio>, d: Seq<Ratio>) -> Seq<Ratio> {
    Seq::new(
        m.len(),
        |i: int|
            if add_fits(m[i], d[i]) {
                add_v(m[i], d[i])
            } else {
                m[i]
            },
    )
}

/// The parabolic height estimate of the P-square step, when every
/// intermediate stays representable; mirrors `compute_p2` exactly.
pub open spec fn p2_cand(hv: Seq<Ratio>, pos: Seq<i64>, i: int, go_up: bool) -> Option<Ratio> {
    let n = pos[i] as int;
    let np1 = pos[i + 1] as int;
    let nm1 = pos[i - 1] as int;
    if np1 == nm1 || np1 == n || n == nm1 {
        None
    } else if np1 < -(i64::MAX as int) || nm1 < -(i64::MAX as int) || n < -(i64::MAX as int) {
        None
    } else {
        let q = hv[i];
        let qp1 = hv[i + 1];
        let d = if go_up {
            int_r(1)
        } else {
            int_r(-1)
        };
        if !sub_fits(int_r(np1), int_r(nm1)) {
            None
        } else {
            let den_outer = sub_v(int_r(np1), int_r(nm1));
            if !div_fits(d, den_outer) {
                None
            } else {
                let outer = div_v(d, den_outer);
                if !sub_fits(int_r(n), int_r(nm1)) {
                    None
                } else {
                    let nd = sub_v(int_r(n), int_r(nm1));
                    if !add_fits(nd, d) {
                        None
                    } else {
                        let ndd = add_v(nd, d);
                        if !sub_fits(qp1, q) {
                            None
                        } else {
                            let dq1 = sub_v(qp1, q);
                            if !mul_fits(ndd, dq1) {
                                None
                            } else {
                                let num_left = mul_v(ndd, dq1);
                                if !sub_fits(int_r(np1), int_r(n)) {
                                    None
                                } else {
                                    let den_left = sub_v(int_r(np1), int_r(n));
                                    if !div_fits(num_left, den_left) {
                                        None
                                    } else {
                                        let inner_left = div_v(num_left, den_left);
                                        p2_cand_right(hv, i, d, nd, outer, inner_left, den_left)
                                    }
                                }
                            }
                        }
                    }
                }
            }
        }
    }
}

/// The right half of the parabolic estimate.
pub open spec fn p2_cand_right(
    hv: Seq<Ratio>,
    i: int,
    d: Ratio,
    nd: Ratio,
    outer: Ratio,
    inner_left: Ratio,
    den_left: Ratio,
) -> Option<Ratio> {
    let q = hv[i];
    let qm1 = hv[i - 1];
    if !sub_fits(den_left, d) {
        None
    } else {
        let ndd2 = sub_v(den_left, d);
        if !sub_fits(q, qm1) {
            None
        } else {
            let dq2 = sub_v(q, qm1);
            if !mul_fits(ndd2, dq2) {
                None
            } else {
                let num_right = mul_v(ndd2, dq2);
                if !div_fits(num_right, nd) {
                    None
                } else {
                    let inner_right = div_v(num_right, nd);
                    if !add_fits(inner_left, inner_right) {
                        None
                    } else {
                        let inner = add_v(inner_left, inner_right);
                        if !mul_fits(outer, inner) {
                            None
                        } else {
                            let scaled = mul_v(outer, inner);
                            if !add_fits(q, scaled) {
                                None
                            } else {
                                Some(add_v(q, scaled))
                            }
                        }
                    }
                }
            }
        }
    }
}

/// The linear fallback estimate; mirrors `linear_estimate` exactly.
pub open spec fn lin_cand(hv: Seq<Ratio>, pos: Seq<i64>, i: int, go_up: bool) -> Option<Ratio> {
    let target = if go_up {
        i + 1
    } else {
        i - 1
    };
    let n = pos[i] as int;
    let nt = pos[target] as int;
    if nt == n || nt < -(i64::MAX as int) || n < -(i64::MAX as int) {
        None
    } else {
        let d = if go_up {
            int_r(1)
        } else {
            int_r(-1)
        };
        let q = hv[i];
        if !sub_fits(hv[target], q) {
            None
        } else {
            let dh = sub_v(hv[target], q);
            if !sub_fits(int_r(nt), int_r(n)) {
                None
            } else {
                let dn = sub_v(int_r(nt), int_r(n));
                if !div_fits(dh, dn) {
                    None
                } else {
                    let slope = div_v(dh, dn);
                    if !mul_fits(d, slope) {
                        None
                    } else {
                        let step = mul_v(d, slope);
                        if !add_fits(q, step) {
                            None
                        } else {
                            Some(add_v(q, step))
                        }
                    }
                }
            }
        }
    }
}

/// One marker adjustment of the P-square step; mirrors `adjust_at` exactly:
/// the heights and integer positions after marker `i` is considered.
pub open spec fn adj_res(hv: Seq<Ratio>, pos: Seq<i64>, mv: Seq<Ratio>, i: int) -> (
    Seq<Ratio>,
    Seq<i64>,
) {
    let n = pos[i] as int;
    if n < -(i64::MAX as int) {
        (hv, pos)
    } else if !sub_fits(mv[i], int_r(n)) {
        (hv, pos)
    } else {
        let d = sub_v(mv[i], int_r(n));
        let go_up = rat_le(int_r(1), d) && pos[i + 1] - pos[i] > 1;
        let go_down = rat_le(d, int_r(-1)) && pos[i - 1] - pos[i] < -1;
        if !(go_up || go_down) {
            (hv, pos)
        } else {
            let cand = p2_cand(hv, pos, i, go_up);
            let chosen = if cand is Some && rat_lt(hv[i - 1], cand->0) && rat_lt(
                cand->0,
                hv[i + 1],
            ) {
                cand
            } else {
                lin_cand(hv, pos, i, go_up)
            };
            let hv2 = if chosen is Some && rat_le(hv[i - 1], chosen->0) && rat_le(
                chosen->0,
                hv[i + 1],
            ) {
                hv.update(i, chosen->0)
            } else {
                hv
            };
            let pos2 = if go_up {
                if pos[i] < i64::MAX {
                    pos.update(i, (pos[i] + 1) as i64)
                } else {
                    pos
                }
            } else {
                if pos[i] > -i64::MAX {
                    pos.update(i, (pos[i] - 1) as i64)
                } else {
                    pos
                }
            };
            (hv2, pos2)
        }
    }
}


/// One P-square step keeps the extreme markers tracking the stream extremes:
/// the lowest height becomes the observation exactly when it undercuts it,
/// the highest exactly when it exceeds it, and no adjustment moves either.
/// By induction over the updates, the lowest and highest heights of an
/// active estimator are the minimum and maximum of all observations, and
/// every reported estimate lies between them.
pub proof fn lemma_step_tracks_extremes(
    hv: Seq<Ratio>,
    pos: Seq<i64>,
    mv: Seq<Ratio>,
    dv: Seq<Ratio>,
    x: Ratio,
)
    requires
        hv.len() == 5,
    ensures
        p2_step(hv, pos, mv, dv, x).0.len() == 5,
        p2_step(hv, pos, mv, dv, x).0[0] == (if rat_lt(x, hv[0]) {
            x
        } else {
            hv[0]
        }),
        p2_step(hv, pos, mv, dv, x).0[4] == (if !rat_lt(x, hv[0]) && rat_lt(hv[4], x) {
            x
        } else {
            hv[4]
        }),
{
    let hv1 = fk_hv(hv, x);
    let p1 = bump_pos(pos, fk_k(hv, x));
    let m1 = adv_m(mv, dv);
    lemma_adj_keeps_extremes(hv1, p1, m1, 1);
    let r1 = adj_res(hv1, p1, m1, 1);
    lemma_adj_keeps_extremes(r1.0, r1.1, m1, 2);
    let r2 = adj_res(r1.0, r1.1, m1, 2);
    lemma_adj_keeps_extremes(r2.0, r2.1, m1, 3);
}

/// One marker adjustment never moves the extreme heights.
proof fn lemma_adj_keeps_extremes(hv: Seq<Ratio>, pos: Seq<i64>, mv: Seq<Ratio>, i: int)
    requires
        hv.len() == 5,
        1 <= i <= 3,
    ensures
        adj_res(hv, pos, mv, i).0.len() == 5,
        adj_res(hv, pos, mv, i).0[0] == hv[0],
        adj_res(hv, pos, mv, i).0[4] == hv[4],
{
}

/// The height views of a well-formed estimator are all well-formed.
proof fn lemma_heights_wf(q: &Quantile)
    requires
        q.inv(),
    ensures
        crate::ratio::all_wf(views(q.heights@)),
{
    assert forall|j: int| 0 <= j < views(q.heights@).len() implies rwf(
        #[trigger] views(q.heights@)[j],
    ) by {
        assert(views(q.heights@)[j] == q.heights@[j]@);
        assert(in64(q.heights@[j]@));
    }
}

/// Replacing the entry at `i` of a sorted sequence by a value between its
/// neighbours keeps the sequence sorted.
proof fn lemma_sorted_update(s: Seq<Ratio>, i: int, v: Ratio)
    requires
        sorted_vals(s),
        0 <= i < s.len(),
        crate::ratio::all_wf(s),
        rwf(v),
        i > 0 ==> rat_le(s[i - 1], v),
        i < s.len() - 1 ==> rat_le(v, s[i + 1]),
    ensures
        sorted_vals(s.update(i, v)),
{
    let t = s.update(i, v);
    assert forall|p: int, q: int| 0 <= p < q < t.len() implies rat_le(
        #[trigger] t[p],
        #[trigger] t[q],
    ) by {
        if p == i && q == i {
        } else if p == i {
            if q > i + 1 {
                lemma_le_trans(v, s[i + 1], s[q]);
            }
        } else if q == i {
            if p < i - 1 {
                lemma_le_trans(s[p], s[i - 1], v);
            }
        }
    }
}
/// The linear interpolation between two ranked window entries.
pub open spec fn interp_r(lo: Ratio, hi: Ratio, frac: Ratio) -> Ratio {
    add_r(lo, mul_r(sub_r(hi, lo), frac))
}

/// The interpolation arithmetic stays representable.
pub open spec fn interp_fits(lo: Ratio, hi: Ratio, frac: Ratio) -> bool {
    &&& sub_fits(hi, lo)
    &&& mul_fits(sub_v(hi, lo), frac)
    &&& add_fits(lo, mul_v(sub_v(hi, lo), frac))
}

/// Interpolates between the ranks `lo` and `hi` of the window.
pub fn interpolate(w: &SortedWindow, lo: usize, hi: usize, frac: &Rat) -> (r: Rat)
    requires
        w.wf(),
        lo < w.window().len(),
        hi < w.window().len(),
        interp_fits(w.ranked()[lo as int], w.ranked()[hi as int], frac@),
    ensures
        rat_eq(r@, interp_r(w.ranked()[lo as int], w.ranked()[hi as int], frac@)),
        r@ == add_v(
            w.ranked()[lo as int],
            mul_v(sub_v(w.ranked()[hi as int], w.ranked()[lo as int]), frac@),
        ),
{
    let a = w.at_rank(lo);
    let b = w.at_rank(hi);
    let d = b.sub(&a);
    let m = d.mul(frac);
    let r = a.add(&m);
    proof {
        use_type_invariant(&*frac);
        Rat::lemma_inv_in64(*frac);
        use_type_invariant(&a);
        Rat::lemma_inv_in64(a);
        use_type_invariant(&b);
        Rat::lemma_inv_in64(b);
        let lov = a@;
        let hiv = b@;
        crate::ratio::lemma_mul_congr(d@, frac@, sub_r(hiv, lov), frac@);
        crate::ratio::lemma_rwf2(sub_r(hiv, lov), frac@);
        crate::ratio::lemma_eq_trans(m@, mul_r(d@, frac@), mul_r(sub_r(hiv, lov), frac@));
        crate::ratio::lemma_add_congr(lov, m@, lov, mul_r(sub_r(hiv, lov), frac@));
        crate::ratio::lemma_rwf2(lov, mul_r(sub_r(hiv, lov), frac@));
        crate::ratio::lemma_eq_trans(
            r@,
            add_r(lov, m@),
            add_r(lov, mul_r(sub_r(hiv, lov), frac@)),
        );
    }
    r
}

/// Interpolating a rank with itself gives that entry back: a window of one
/// observation has no spread.
pub proof fn lemma_interp_self(x: Ratio, frac: Ratio)
    requires
        rwf(x),
        rwf(frac),
    ensures
        rat_eq(interp_r(x, x, frac), x),
{
    assert((x.n * ((x.d * x.d) * frac.d) + ((x.n * x.d - x.n * x.d) * frac.n) * x.d) * x.d == x.n
        * (x.d * ((x.d * x.d) * frac.d))) by (nonlinear_arith) {}
}

/// The rank below `q * (len - 1)`.
pub open spec fn floor_idx(q: Ratio, len: int) -> int {
    (q.n * (len - 1)) / q.d
}

/// The rank above `q * (len - 1)`, clamped into the window.
pub open spec fn hi_idx(q: Ratio, len: int) -> int {
    if floor_idx(q, len) + 1 <= len - 1 {
        floor_idx(q, len) + 1
    } else {
        len - 1
    }
}

/// The fractional remainder `q * (len - 1) - floor_idx`, as the exact
/// representation the index computation builds.
pub open spec fn frac_rep(q: Ratio, len: int) -> Ratio {
    Ratio { n: q.n * (len - 1) - floor_idx(q, len) * q.d, d: q.d }
}

/// The recomputed ranks stay inside the window and the remainder is
/// well-formed.
pub proof fn lemma_idx_bounds(q: Ratio, len: int)
    requires
        rwf(q),
        rat_le(int_r(0), q),
        rat_le(q, int_r(1)),
        1 <= len,
    ensures
        0 <= floor_idx(q, len) < len,
        0 <= hi_idx(q, len) < len,
        floor_idx(q, len) <= hi_idx(q, len),
        rwf(frac_rep(q, len)),
{
    assert(q.n >= 0) by (nonlinear_arith)
        requires
            0 * q.d <= q.n * 1,
    {
    }
    assert(0 <= q.n * (len - 1)) by (nonlinear_arith)
        requires
            0 <= q.n,
            0 <= len - 1,
    {
    }
    vstd::arithmetic::div_mod::lemma_div_pos_is_pos(q.n * (len - 1), q.d);
    assert(q.n * (len - 1) <= q.d * (len - 1)) by (nonlinear_arith)
        requires
            q.n <= q.d,
            0 <= len - 1,
    {
    }
    vstd::arithmetic::div_mod::lemma_div_is_ordered(q.n * (len - 1), q.d * (len - 1), q.d);
    vstd::arithmetic::div_mod::lemma_div_multiples_vanish(len - 1, q.d);
}

/// The interpolation indices `lower`, `higher` and the fractional remainder
/// of `q * (len - 1)`, clamped to the valid rank range.
pub fn quantile_indices(q: &Rat, len: usize) -> (r: (usize, usize, Rat))
    requires
        1 <= len,
        len <= u32::MAX,
        rat_le(int_r(0), q@),
        rat_le(q@, int_r(1)),
    ensures
        r.0 < len,
        r.1 < len,
        r.0 <= r.1,
        in64(r.2@),
        rat_le(int_r(0), r.2@),
        r.0 == floor_idx(q@, len as int),
        r.1 == hi_idx(q@, len as int),
        r.2@ == frac_rep(q@, len as int),
{
    proof {
        use_type_invariant(&*q);
        Rat::lemma_inv_in64(*q);
    }
    let qn = q.num();
    let qd = q.den();
    proof {
        assert(qn >= 0) by (nonlinear_arith)
            requires
                0 * (q@.d) <= qn * 1,
        {
        }
        assert((qn as i128) * ((len - 1) as i128) <= i64::MAX as i128 * u32::MAX as i128)
            by (nonlinear_arith)
            requires
                0 <= qn <= i64::MAX,
                0 <= (len - 1) as i128 <= u32::MAX as i128,
        {
        }
    }
    let num: i128 = (qn as i128) * ((len - 1) as i128);
    let lower128: i128 = num / (qd as i128);
    let rem: i128 = num % (qd as i128);
    proof {
        assert(0 <= lower128 && 0 <= rem < qd as i128) by (nonlinear_arith)
            requires
                0 <= num,
                1 <= qd as i128,
                lower128 == num / (qd as i128),
                rem == num % (qd as i128),
        {
        }
        // q <= 1 keeps the floor inside the window
        assert(qn as i128 * ((len - 1) as i128) <= qd as i128 * ((len - 1) as i128))
            by (nonlinear_arith)
            requires
                qn <= qd,
                0 <= (len - 1) as i128,
        {
        }
        vstd::arithmetic::div_mod::lemma_div_is_ordered(
            num as int,
            qd as int * ((len - 1) as int),
            qd as int,
        );
        vstd::arithmetic::div_mod::lemma_div_multiples_vanish((len - 1) as int, qd as int);
        assert(lower128 <= (len - 1) as i128);
        vstd::arithmetic::div_mod::lemma_fundamental_div_mod(num as int, qd as int);
        assert(num == q@.n * (len as int - 1));
        assert(lower128 == floor_idx(q@, len as int));
        assert(rem == q@.n * (len as int - 1) - floor_idx(q@, len as int) * q@.d);
        assert(0 <= rem <= i64::MAX as i128);
    }
    let lower: usize = if lower128 >= len as i128 - 1 {
        len - 1
    } else {
        lower128 as usize
    };
    let higher: usize = if lower + 1 <= len - 1 {
        lower + 1
    } else {
        len - 1
    };
    let frac = match Rat::new(rem as i64, qd) {
        Some(v) => v,
        None => {
            proof {
                assert(false);
            }
            Rat::zero()
        },
    };
    (lower, higher, frac)
}

/// Quantile over a bounded trailing window, by linear interpolation between
/// the two ranks that bracket `q * (len - 1)`.
pub struct RollingQuantile {
    pub sorted_window: SortedWindow,
    pub q: Rat,
    pub window_size: usize,
    pub lower: usize,
    pub higher: usize,
    pub frac: Rat,
    pub hist: Ghost<Seq<Ratio>>,
}

impl RollingQuantile {
    /// Builds the rolling quantile; rejects a fraction outside `[0, 1]` or a
    /// zero (or unrepresentably large) window.
    pub fn new(q: &Rat, window_size: usize) -> (r: Result<RollingQuantile, Error>)
        ensures
            r is Ok <==> (rat_le(int_r(0), q@) && rat_le(q@, int_r(1)) && 1 <= window_size
                && window_size <= u32::MAX),
            r is Ok ==> r->Ok_0.inv() && r->Ok_0.hist() == Seq::<Ratio>::empty() && r->Ok_0.q
                == *q && r->Ok_0.window_size == window_size && r->Ok_0.lower == floor_idx(
                q@,
                window_size as int,
            ) && r->Ok_0.higher == hi_idx(q@, window_size as int) && r->Ok_0.frac@ == frac_rep(
                q@,
                window_size as int,
            ) && r->Ok_0.sorted_window.base == 0,
    {
        let zero = Rat::zero();
        let one = Rat::from_int(1);
        if window_size == 0 || window_size > u32::MAX as usize {
            return Err(Error::InvalidParameter);
        }
        if !(zero.le(q) && q.le(&one)) {
            return Err(Error::InvalidParameter);
        }
        let (lower, higher, frac) = quantile_indices(q, window_size);
        let r = RollingQuantile {
            sorted_window: SortedWindow::new(window_size),
            q: *q,
            window_size,
            lower,
            higher,
            frac,
            hist: Ghost(Seq::empty()),
        };
        proof {
            assert(r.sorted_window.window() =~= r.hist@.skip(
                r.hist@.len() - r.sorted_window.window().len(),
            ));
        }
        Ok(r)
    }
}

impl Univariate for RollingQuantile {
    open spec fn inv(&self) -> bool {
        &&& self.sorted_window.wf()
        &&& self.sorted_window.window_size == self.window_size
        &&& self.window_size <= u32::MAX
        &&& in64(self.q@)
        &&& rat_le(int_r(0), self.q@) && rat_le(self.q@, int_r(1))
        &&& self.lower < self.window_size && self.higher < self.window_size
        &&& in64(self.frac@)
        &&& self.sorted_window.base <= self.hist@.len()
        &&& self.sorted_window.window() == self.hist@.skip(
            self.hist@.len() - self.sorted_window.window().len(),
        )
        &&& self.sorted_window.window().len() == vstd::math::min(
            self.hist@.len() as int,
            self.window_size as int,
        )
    }

    open spec fn hist(&self) -> Seq<Ratio> {
        self.hist@
    }

    open spec fn can_update(&self, x: Ratio) -> bool {
        self.sorted_window.base + self.sorted_window.window_size < u64::MAX
    }

    open spec fn can_get(&self) -> bool {
        let len = self.sorted_window.window().len() as int;
        &&& len > 0
        &&& (if len == self.window_size {
            interp_fits(
                self.sorted_window.ranked()[self.lower as int],
                self.sorted_window.ranked()[self.higher as int],
                self.frac@,
            )
        } else {
            interp_fits(
                self.sorted_window.ranked()[floor_idx(self.q@, len)],
                self.sorted_window.ranked()[hi_idx(self.q@, len)],
                frac_rep(self.q@, len),
            )
        })
    }

    open spec fn stat(&self) -> Ratio {
        let len = self.sorted_window.window().len() as int;
        if len == self.window_size {
            interp_r(
                self.sorted_window.ranked()[self.lower as int],
                self.sorted_window.ranked()[self.higher as int],
                self.frac@,
            )
        } else {
            interp_r(
                self.sorted_window.ranked()[floor_idx(self.q@, len)],
                self.sorted_window.ranked()[hi_idx(self.q@, len)],
                frac_rep(self.q@, len),
            )
        }
    }

    fn update(&mut self, x: &Rat)
        ensures
            final(self).q == old(self).q,
            final(self).window_size == old(self).window_size,
            final(self).lower == old(self).lower,
            final(self).higher == old(self).higher,
            final(self).frac == old(self).frac,
            final(self).sorted_window.window() == (if old(self).sorted_window.window().len()
                == old(self).window_size {
                old(self).sorted_window.window().drop_first().push(x@)
            } else {
                old(self).sorted_window.window().push(x@)
            }),
    {
        self.sorted_window.push_back(*x);
        proof {
            self.hist@ = self.hist@.push(x@);
            assert(self.sorted_window.window() =~= self.hist@.skip(
                self.hist@.len() - self.sorted_window.window().len(),
            ));
        }
    }

    fn get(&self) -> (r: Rat) {
        let len = self.sorted_window.len();
        if len < self.window_size {
            // the window is not yet full: the ranks are recomputed against
            // the current length
            let (lo, hi, f) = quantile_indices(&self.q, len);
            interpolate(&self.sorted_window, lo, hi, &f)
        } else {
            interpolate(&self.sorted_window, self.lower, self.higher, &self.frac)
        }
    }
}

} // verus!
