//! Executable exact rational numbers.
//!
//! A [`Rat`] stores a numerator and a positive denominator in 64-bit fields
//! and is interpreted by the specification model [`crate::ratio::Ratio`].
//! Every arithmetic operation computes the exact result in 128-bit
//! intermediates, removes the greatest common divisor, and stores the reduced
//! pair; its contract states the returned representation exactly, and the
//! lemmas of [`crate::ratio`] relate it to the unreduced textbook operation.

use vstd::prelude::*;

verus! {

use crate::ratio::{
    add_fits, add_r, add_v, div_fits, div_r, div_v, gcd, in64, int_r, lemma_add_v, lemma_div_v,
    lemma_gcd_divides, lemma_gcd_pos, lemma_mul_v, lemma_sub_v, mul_fits, mul_r, mul_v, neg_r,
    norm2, rat_eq, rat_le, rat_lt, rwf, sub_fits, sub_r, sub_v, Ratio,
};
use vstd::math::abs;

/// An exact rational number: numerator `n`, denominator `d >= 1`.
/// The representation returned by the arithmetic methods is always reduced,
/// but reduction is a representation detail: contracts elsewhere in the
/// library compare values with [`rat_eq`].
#[derive(Clone, Copy, Debug)]
pub struct Rat {
    n: i64,
    d: i64,
}

impl View for Rat {
    type V = Ratio;

    closed spec fn view(&self) -> Ratio {
        Ratio { n: self.n as int, d: self.d as int }
    }
}

impl Rat {
    /// Field ranges every `Rat` keeps: a positive denominator, and both
    /// fields clear of `i64::MIN` so negation can never overflow.
    #[verifier::type_invariant]
    pub closed spec fn type_inv(self) -> bool {
        in64(self@)
    }

    /// What the type invariant guarantees, stated over the view.
    pub proof fn lemma_inv_in64(r: Rat)
        requires
            r.type_inv(),
        ensures
            in64(r@),
    {
    }

    /// The rational `0`.
    pub fn zero() -> (r: Rat)
        ensures
            r@ == int_r(0),
    {
        Rat { n: 0, d: 1 }
    }

    /// The rational `i`.
    pub fn from_int(i: i32) -> (r: Rat)
        ensures
            r@ == int_r(i as int),
    {
        Rat { n: i as i64, d: 1 }
    }

    /// The rational `n`, for any numerator that negation keeps in range.
    pub fn from_i64(n: i64) -> (r: Rat)
        requires
            -i64::MAX <= n,
        ensures
            r@ == int_r(n as int),
    {
        Rat { n, d: 1 }
    }

    /// The rational `n / d`, or `None` when `d` is not positive or either
    /// field is `i64::MIN`.
    pub fn new(n: i64, d: i64) -> (r: Option<Rat>)
        ensures
            r is Some <==> (1 <= d && -i64::MAX <= n),
            r is Some ==> r->0@ == (Ratio { n: n as int, d: d as int }),
    {
        if d >= 1 && n > i64::MIN {
            Some(Rat { n, d })
        } else {
            None
        }
    }

    /// The numerator of the stored representation.
    pub fn num(&self) -> (r: i64)
        ensures
            r == self@.n,
    {
        self.n
    }

    /// The denominator of the stored representation.
    pub fn den(&self) -> (r: i64)
        ensures
            r == self@.d,
            1 <= r,
    {
        proof {
            use_type_invariant(&*self);
        }
        self.d
    }

    /// Exact sum.
    pub fn add(&self, o: &Rat) -> (r: Rat)
        requires
            add_fits(self@, o@),
        ensures
            r@ == add_v(self@, o@),
            in64(r@),
            rat_eq(r@, add_r(self@, o@)),
            rwf(add_r(self@, o@)),
    {
        proof {
            use_type_invariant(&*self);
            use_type_invariant(&*o);
            lemma_wide_products(self@, o@);
            lemma_add_v(self@, o@);
        }
        let n: i128 = (self.n as i128) * (o.d as i128) + (o.n as i128) * (self.d as i128);
        let d: i128 = (self.d as i128) * (o.d as i128);
        Rat::reduced(n, d)
    }

    /// Exact difference.
    pub fn sub(&self, o: &Rat) -> (r: Rat)
        requires
            sub_fits(self@, o@),
        ensures
            r@ == sub_v(self@, o@),
            in64(r@),
            rat_eq(r@, sub_r(self@, o@)),
            rwf(sub_r(self@, o@)),
    {
        proof {
            use_type_invariant(&*self);
            use_type_invariant(&*o);
            lemma_wide_products(self@, o@);
            lemma_sub_v(self@, o@);
        }
        let n: i128 = (self.n as i128) * (o.d as i128) - (o.n as i128) * (self.d as i128);
        let d: i128 = (self.d as i128) * (o.d as i128);
        Rat::reduced(n, d)
    }

    /// Exact product.
    pub fn mul(&self, o: &Rat) -> (r: Rat)
        requires
            mul_fits(self@, o@),
        ensures
            r@ == mul_v(self@, o@),
            in64(r@),
            rat_eq(r@, mul_r(self@, o@)),
            rwf(mul_r(self@, o@)),
    {
        proof {
            use_type_invariant(&*self);
            use_type_invariant(&*o);
            lemma_wide_products(self@, o@);
            lemma_mul_v(self@, o@);
        }
        let n: i128 = (self.n as i128) * (o.n as i128);
        let d: i128 = (self.d as i128) * (o.d as i128);
        Rat::reduced(n, d)
    }

    /// Exact quotient.
    pub fn div(&self, o: &Rat) -> (r: Rat)
        requires
            div_fits(self@, o@),
        ensures
            r@ == div_v(self@, o@),
            in64(r@),
            rat_eq(r@, div_r(self@, o@)),
            rwf(div_r(self@, o@)),
    {
        proof {
            use_type_invariant(&*self);
            use_type_invariant(&*o);
            lemma_wide_products(self@, o@);
            lemma_div_v(self@, o@);
        }
        let n: i128 = (self.n as i128) * (o.d as i128);
        let d: i128 = (self.d as i128) * (o.n as i128);
        if o.n > 0 {
            proof {
                assert(1 <= self@.d * o@.n) by (nonlinear_arith)
                    requires
                        1 <= self@.d,
                        1 <= o@.n,
                {
                }
            }
            Rat::reduced(n, d)
        } else {
            proof {
                assert(1 <= -(self@.d * o@.n)) by (nonlinear_arith)
                    requires
                        1 <= self@.d,
                        o@.n <= -1,
                {
                }
            }
            Rat::reduced(-n, -d)
        }
    }

    /// Exact negation; always in range because `i64::MIN` is excluded.
    pub fn neg(&self) -> (r: Rat)
        ensures
            r@ == neg_r(self@),
    {
        proof {
            use_type_invariant(&*self);
        }
        Rat { n: -self.n, d: self.d }
    }

    /// Absolute value.
    pub fn abs_val(&self) -> (r: Rat)
        ensures
            r@ == (if self@.n >= 0 {
                self@
            } else {
                neg_r(self@)
            }),
    {
        proof {
            use_type_invariant(&*self);
        }
        if self.n >= 0 {
            *self
        } else {
            self.neg()
        }
    }

    /// Value comparison: `self < o`.
    pub fn lt(&self, o: &Rat) -> (r: bool)
        ensures
            r == rat_lt(self@, o@),
    {
        proof {
            use_type_invariant(&*self);
            use_type_invariant(&*o);
            lemma_wide_products(self@, o@);
        }
        (self.n as i128) * (o.d as i128) < (o.n as i128) * (self.d as i128)
    }

    /// Value comparison: `self <= o`.
    pub fn le(&self, o: &Rat) -> (r: bool)
        ensures
            r == rat_le(self@, o@),
    {
        proof {
            use_type_invariant(&*self);
            use_type_invariant(&*o);
            lemma_wide_products(self@, o@);
        }
        (self.n as i128) * (o.d as i128) <= (o.n as i128) * (self.d as i128)
    }

    /// Value equality, independent of representation.
    pub fn eq_val(&self, o: &Rat) -> (r: bool)
        ensures
            r == rat_eq(self@, o@),
    {
        proof {
            use_type_invariant(&*self);
            use_type_invariant(&*o);
            lemma_wide_products(self@, o@);
        }
        (self.n as i128) * (o.d as i128) == (o.n as i128) * (self.d as i128)
    }


    /// Exact sum when it fits the representation, `None` otherwise.
    pub fn checked_add(&self, o: &Rat) -> (r: Option<Rat>)
        ensures
            r is Some <==> add_fits(self@, o@),
            r is Some ==> r->0@ == add_v(self@, o@),
    {
        proof {
            use_type_invariant(&*self);
            use_type_invariant(&*o);
            lemma_wide_products(self@, o@);
        }
        let n: i128 = (self.n as i128) * (o.d as i128) + (o.n as i128) * (self.d as i128);
        let d: i128 = (self.d as i128) * (o.d as i128);
        proof {
            lemma_add_v(self@, o@);
        }
        Rat::checked_reduced(n, d)
    }

    /// Exact difference when it fits the representation, `None` otherwise.
    pub fn checked_sub(&self, o: &Rat) -> (r: Option<Rat>)
        ensures
            r is Some <==> sub_fits(self@, o@),
            r is Some ==> r->0@ == sub_v(self@, o@),
    {
        proof {
            use_type_invariant(&*self);
            use_type_invariant(&*o);
            lemma_wide_products(self@, o@);
        }
        let n: i128 = (self.n as i128) * (o.d as i128) - (o.n as i128) * (self.d as i128);
        let d: i128 = (self.d as i128) * (o.d as i128);
        proof {
            lemma_sub_v(self@, o@);
        }
        Rat::checked_reduced(n, d)
    }

    /// Exact product when it fits the representation, `None` otherwise.
    pub fn checked_mul(&self, o: &Rat) -> (r: Option<Rat>)
        ensures
            r is Some <==> mul_fits(self@, o@),
            r is Some ==> r->0@ == mul_v(self@, o@),
    {
        proof {
            use_type_invariant(&*self);
            use_type_invariant(&*o);
            lemma_wide_products(self@, o@);
        }
        let n: i128 = (self.n as i128) * (o.n as i128);
        let d: i128 = (self.d as i128) * (o.d as i128);
        proof {
            lemma_mul_v(self@, o@);
        }
        Rat::checked_reduced(n, d)
    }

    /// Exact quotient when the divisor is non-zero and the result fits the
    /// representation, `None` otherwise.
    pub fn checked_div(&self, o: &Rat) -> (r: Option<Rat>)
        ensures
            r is Some <==> div_fits(self@, o@),
            r is Some ==> r->0@ == div_v(self@, o@),
    {
        proof {
            use_type_invariant(&*self);
            use_type_invariant(&*o);
            lemma_wide_products(self@, o@);
        }
        if o.n == 0 {
            return None;
        }
        let n: i128 = (self.n as i128) * (o.d as i128);
        let d: i128 = (self.d as i128) * (o.n as i128);
        proof {
            lemma_div_v(self@, o@);
        }
        if o.n > 0 {
            proof {
                assert(1 <= self@.d * o@.n) by (nonlinear_arith)
                    requires
                        1 <= self@.d,
                        1 <= o@.n,
                {
                }
            }
            Rat::checked_reduced(n, d)
        } else {
            proof {
                assert(1 <= -(self@.d * o@.n)) by (nonlinear_arith)
                    requires
                        1 <= self@.d,
                        o@.n <= -1,
                {
                }
            }
            Rat::checked_reduced(-n, -d)
        }
    }

    /// Builds the reduced representation when it fits 64 bits.
    fn checked_reduced(n: i128, d: i128) -> (r: Option<Rat>)
        requires
            1 <= d,
            -i128::MAX <= n,
        ensures
            r is Some <==> in64(norm2(n as int, d as int)),
            r is Some ==> r->0@ == norm2(n as int, d as int),
    {
        let neg = n < 0;
        let mag: u128 = if neg {
            (-n) as u128
        } else {
            n as u128
        };
        let dd: u128 = d as u128;
        proof {
            assert(mag as nat == abs(n as int));
            lemma_gcd_pos(mag as nat, dd as nat);
            lemma_gcd_divides(mag as nat, dd as nat);
            lemma_reduced_shrink(mag as nat, dd as nat);
        }
        let g = gcd_u(mag, dd);
        let rn = mag / g;
        let rd = dd / g;
        if rn <= i64::MAX as u128 && rd <= i64::MAX as u128 {
            if neg {
                Some(Rat { n: -(rn as i64), d: rd as i64 })
            } else {
                Some(Rat { n: rn as i64, d: rd as i64 })
            }
        } else {
            None
        }
    }

    /// Builds the reduced representation of `n / d` from exact wide
    /// intermediates.
    fn reduced(n: i128, d: i128) -> (r: Rat)
        requires
            1 <= d,
            -i128::MAX <= n,
            in64(norm2(n as int, d as int)),
        ensures
            r@ == norm2(n as int, d as int),
    {
        let neg = n < 0;
        let mag: u128 = if neg {
            (-n) as u128
        } else {
            n as u128
        };
        let dd: u128 = d as u128;
        proof {
            assert(mag as nat == abs(n as int));
            lemma_gcd_pos(mag as nat, dd as nat);
            lemma_gcd_divides(mag as nat, dd as nat);
            lemma_reduced_shrink(mag as nat, dd as nat);
        }
        let g = gcd_u(mag, dd);
        let rn = (mag / g) as i64;
        let rd = (dd / g) as i64;
        if neg {
            Rat { n: -rn, d: rd }
        } else {
            Rat { n: rn, d: rd }
        }
    }
}

/// Positive divisors from the greatest common divisor shrink magnitudes.
proof fn lemma_reduced_shrink(a: nat, b: nat)
    requires
        1 <= b,
    ensures
        a as int / gcd(a, b) as int <= a,
        0 <= a as int / gcd(a, b) as int,
        1 <= b as int / gcd(a, b) as int <= b,
{
    lemma_gcd_pos(a, b);
    lemma_gcd_divides(a, b);
    let g = gcd(a, b) as int;
    let ka = choose|k: int| a as int == #[trigger] (g * k);
    let kb = choose|k: int| b as int == #[trigger] (g * k);
    vstd::arithmetic::div_mod::lemma_div_multiples_vanish(ka, g);
    vstd::arithmetic::div_mod::lemma_div_multiples_vanish(kb, g);
    assert(0 <= ka <= a && 1 <= kb <= b) by (nonlinear_arith)
        requires
            a as int == g * ka,
            b as int == g * kb,
            0 <= a,
            1 <= b,
            1 <= g,
    {
    }
}

/// All pairwise 64-bit products of two well-formed in-range rationals stay
/// within the 128-bit intermediates, with room for one addition.
proof fn lemma_wide_products(a: Ratio, b: Ratio)
    requires
        in64(a),
        in64(b),
    ensures
        -(i64::MAX as int * i64::MAX as int) <= a.n * b.d <= i64::MAX as int * i64::MAX as int,
        -(i64::MAX as int * i64::MAX as int) <= b.n * a.d <= i64::MAX as int * i64::MAX as int,
        -(i64::MAX as int * i64::MAX as int) <= a.n * b.n <= i64::MAX as int * i64::MAX as int,
        -(i64::MAX as int * i64::MAX as int) <= a.d * b.n <= i64::MAX as int * i64::MAX as int,
        1 <= a.d * b.d <= i64::MAX as int * i64::MAX as int,
        2 * (i64::MAX as int * i64::MAX as int) < i128::MAX as int,
{
    let m = i64::MAX as int;
    assert(forall|x: int, y: int|
        -m <= x <= m && -m <= y <= m ==> -(m * m) <= #[trigger] (x * y) <= m * m) by (nonlinear_arith) {}
    assert(1 <= a.d * b.d) by (nonlinear_arith)
        requires
            1 <= a.d,
            1 <= b.d,
    {
    }
}

/// Euclid's algorithm for the greatest common divisor.
fn gcd_u(a: u128, b: u128) -> (g: u128)
    ensures
        g as nat == gcd(a as nat, b as nat),
    decreases b,
{
    let mut x = a;
    let mut y = b;
    while y != 0
        invariant
            gcd(x as nat, y as nat) == gcd(a as nat, b as nat),
        decreases y,
    {
        let t = x % y;
        x = y;
        y = t;
    }
    x
}

} // verus!
