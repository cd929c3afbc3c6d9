//! Mathematical model of the numeric values that flow through the library.
//!
//! Every observation and every statistic is an exact rational number.  At the
//! specification level a rational is a pair of unbounded integers `n / d`
//! with `d >= 1`; two pairs denote the same number exactly when they
//! cross-multiply equally.  The executable counterpart is [`crate::rat::Rat`].

use vstd::prelude::*;

verus! {

use vstd::math::abs;

/// A rational number `n / d` at the specification level.  Well-formed values
/// keep `d >= 1`; equality of values is [`rat_eq`], not structural equality.
pub ghost struct Ratio {
    pub n: int,
    pub d: int,
}

/// Well-formedness: the denominator is positive.
pub open spec fn rwf(a: Ratio) -> bool {
    1 <= a.d
}

/// The rational with value `n`.
pub open spec fn int_r(n: int) -> Ratio {
    Ratio { n, d: 1 }
}

/// `a` and `b` denote the same rational number.
pub open spec fn rat_eq(a: Ratio, b: Ratio) -> bool {
    a.n * b.d == b.n * a.d
}

/// `a <= b` as rational numbers (valid for well-formed operands).
pub open spec fn rat_le(a: Ratio, b: Ratio) -> bool {
    a.n * b.d <= b.n * a.d
}

/// `a < b` as rational numbers (valid for well-formed operands).
pub open spec fn rat_lt(a: Ratio, b: Ratio) -> bool {
    a.n * b.d < b.n * a.d
}

/// Exact rational addition, without normalization.
pub open spec fn add_r(a: Ratio, b: Ratio) -> Ratio {
    Ratio { n: a.n * b.d + b.n * a.d, d: a.d * b.d }
}

/// Exact rational subtraction, without normalization.
pub open spec fn sub_r(a: Ratio, b: Ratio) -> Ratio {
    Ratio { n: a.n * b.d - b.n * a.d, d: a.d * b.d }
}

/// Exact rational multiplication, without normalization.
pub open spec fn mul_r(a: Ratio, b: Ratio) -> Ratio {
    Ratio { n: a.n * b.n, d: a.d * b.d }
}

/// Exact rational negation.
pub open spec fn neg_r(a: Ratio) -> Ratio {
    Ratio { n: -a.n, d: a.d }
}

/// Exact rational division.  The divisor's sign moves into the numerator so
/// that the result stays well-formed; division by zero is given the dummy
/// value 0 and is never relied upon.
pub open spec fn div_r(a: Ratio, b: Ratio) -> Ratio {
    if b.n > 0 {
        Ratio { n: a.n * b.d, d: a.d * b.n }
    } else if b.n < 0 {
        Ratio { n: -(a.n * b.d), d: -(a.d * b.n) }
    } else {
        int_r(0)
    }
}

/// Greatest common divisor by Euclid's recurrence.
pub open spec fn gcd(a: nat, b: nat) -> nat
    decreases b,
{
    if b == 0 {
        a
    } else {
        gcd(b, a % b)
    }
}

/// `n` reduced by the greatest common divisor of its parts, signs handled on
/// non-negative magnitudes exactly as the executable code does.
pub open spec fn norm2(n: int, d: int) -> Ratio {
    let g = gcd(abs(n), d as nat) as int;
    Ratio {
        n: if n >= 0 {
            abs(n) as int / g
        } else {
            -(abs(n) as int / g)
        },
        d: d / g,
    }
}

/// The numerator and denominator both fit the executable 64-bit fields.
/// `i64::MIN` is kept out so that negation can never overflow.
pub open spec fn in64(r: Ratio) -> bool {
    -(i64::MAX as int) <= r.n <= i64::MAX as int && 1 <= r.d <= i64::MAX as int
}

/// What the executable addition returns: the exact sum, normalized.
pub open spec fn add_v(a: Ratio, b: Ratio) -> Ratio {
    norm2(add_r(a, b).n, add_r(a, b).d)
}

/// What the executable subtraction returns: the exact difference, normalized.
pub open spec fn sub_v(a: Ratio, b: Ratio) -> Ratio {
    norm2(sub_r(a, b).n, sub_r(a, b).d)
}

/// What the executable multiplication returns: the exact product, normalized.
pub open spec fn mul_v(a: Ratio, b: Ratio) -> Ratio {
    norm2(mul_r(a, b).n, mul_r(a, b).d)
}

/// What the executable division returns: the exact quotient, normalized.
pub open spec fn div_v(a: Ratio, b: Ratio) -> Ratio {
    norm2(div_r(a, b).n, div_r(a, b).d)
}

/// The executable addition stays in range.
pub open spec fn add_fits(a: Ratio, b: Ratio) -> bool {
    in64(add_v(a, b))
}

/// The executable subtraction stays in range.
pub open spec fn sub_fits(a: Ratio, b: Ratio) -> bool {
    in64(sub_v(a, b))
}

/// The executable multiplication stays in range.
pub open spec fn mul_fits(a: Ratio, b: Ratio) -> bool {
    in64(mul_v(a, b))
}

/// The executable division stays in range (and the divisor is non-zero).
pub open spec fn div_fits(a: Ratio, b: Ratio) -> bool {
    b.n != 0 && in64(div_v(a, b))
}

/// Every entry of the sequence is well-formed.
pub open spec fn all_wf(s: Seq<Ratio>) -> bool {
    forall|i: int| 0 <= i < s.len() ==> rwf(#[trigger] s[i])
}

/// The exact sum of a sequence of rationals.
pub open spec fn sum_of(s: Seq<Ratio>) -> Ratio
    decreases s.len(),
{
    if s.len() == 0 {
        int_r(0)
    } else {
        add_r(sum_of(s.drop_last()), s.last())
    }
}

/// The exact sum of squares of a sequence of rationals.
pub open spec fn sumsq_of(s: Seq<Ratio>) -> Ratio
    decreases s.len(),
{
    if s.len() == 0 {
        int_r(0)
    } else {
        add_r(sumsq_of(s.drop_last()), mul_r(s.last(), s.last()))
    }
}

/// Addition, subtraction and multiplication keep well-formedness.
pub proof fn lemma_rwf2(a: Ratio, b: Ratio)
    requires
        rwf(a),
        rwf(b),
    ensures
        rwf(add_r(a, b)),
        rwf(sub_r(a, b)),
        rwf(mul_r(a, b)),
{
    assert(1 <= a.d * b.d) by (nonlinear_arith)
        requires
            1 <= a.d,
            1 <= b.d,
    {
    }
}

/// Sums of well-formed sequences are well-formed.
pub proof fn lemma_sum_wf(s: Seq<Ratio>)
    requires
        all_wf(s),
    ensures
        rwf(sum_of(s)),
        rwf(sumsq_of(s)),
    decreases s.len(),
{
    if s.len() > 0 {
        lemma_sum_wf(s.drop_last());
        let a = sum_of(s.drop_last());
        let b = sumsq_of(s.drop_last());
        let x = s.last();
        assert(1 <= a.d * x.d && 1 <= b.d * (x.d * x.d)) by (nonlinear_arith)
            requires
                1 <= a.d,
                1 <= b.d,
                1 <= x.d,
        {
        }
    }
}

/// Appending an observation extends both running sums by one term.
pub proof fn lemma_sum_push(s: Seq<Ratio>, x: Ratio)
    ensures
        sum_of(s.push(x)) == add_r(sum_of(s), x),
        sumsq_of(s.push(x)) == add_r(sumsq_of(s), mul_r(x, x)),
{
    assert(s.push(x).drop_last() =~= s);
    assert(s.push(x).last() == x);
}

/// Adding then subtracting the same term gives the original value back.
pub proof fn lemma_add_sub_cancel(a: Ratio, b: Ratio)
    requires
        rwf(a),
        rwf(b),
    ensures
        rat_eq(sub_r(add_r(a, b), b), a),
{
    assert(((a.n * b.d + b.n * a.d) * b.d - b.n * (a.d * b.d)) * a.d == a.n * ((a.d * b.d) * b.d))
        by (nonlinear_arith) {}
}

/// A term may be subtracted before or after an unrelated addition.
pub proof fn lemma_add_sub_swap(a: Ratio, x: Ratio, y: Ratio)
    requires
        rwf(a),
        rwf(x),
        rwf(y),
    ensures
        rat_eq(add_r(sub_r(a, x), y), sub_r(add_r(a, y), x)),
{
    let d1 = (a.d * y.d) * x.d;
    let d2 = (a.d * x.d) * y.d;
    vstd::arithmetic::mul::lemma_mul_is_distributive_sub_other_way(y.d, a.n * x.d, x.n * a.d);
    vstd::arithmetic::mul::lemma_mul_is_distributive_add_other_way(
        d1,
        (a.n * x.d) * y.d - (x.n * a.d) * y.d,
        y.n * (a.d * x.d),
    );
    vstd::arithmetic::mul::lemma_mul_is_distributive_sub_other_way(
        d1,
        (a.n * x.d) * y.d,
        (x.n * a.d) * y.d,
    );
    vstd::arithmetic::mul::lemma_mul_is_distributive_add_other_way(x.d, a.n * y.d, y.n * a.d);
    vstd::arithmetic::mul::lemma_mul_is_distributive_sub_other_way(
        d2,
        (a.n * y.d) * x.d + (y.n * a.d) * x.d,
        x.n * (a.d * y.d),
    );
    vstd::arithmetic::mul::lemma_mul_is_distributive_add_other_way(
        d2,
        (a.n * y.d) * x.d,
        (y.n * a.d) * x.d,
    );
    lemma_mono_a(a.n, x.d, y.d, a.d);
    lemma_mono_b(x.n, a.d, y.d, x.d);
    lemma_mono_c(y.n, a.d, x.d, y.d);
}

/// Monomial regroupings used by the add/sub exchange law.
proof fn lemma_mono_a(p: int, u: int, v: int, w: int)
    ensures
        ((p * u) * v) * ((w * v) * u) == ((p * v) * u) * ((w * u) * v),
{
    assert(((p * u) * v) * ((w * v) * u) == ((p * v) * u) * ((w * u) * v)) by (nonlinear_arith) {}
}

proof fn lemma_mono_b(p: int, w: int, v: int, u: int)
    ensures
        ((p * w) * v) * ((w * v) * u) == (p * (w * v)) * ((w * u) * v),
{
    assert(((p * w) * v) * ((w * v) * u) == (p * (w * v)) * ((w * u) * v)) by (nonlinear_arith) {}
}

proof fn lemma_mono_c(p: int, w: int, u: int, v: int)
    ensures
        (p * (w * u)) * ((w * v) * u) == ((p * w) * u) * ((w * u) * v),
{
    assert((p * (w * u)) * ((w * v) * u) == ((p * w) * u) * ((w * u) * v)) by (nonlinear_arith) {}
}

/// Removing the entry at `i` takes exactly its contribution out of both
/// running sums.
pub proof fn lemma_sum_remove(s: Seq<Ratio>, i: int)
    requires
        all_wf(s),
        0 <= i < s.len(),
    ensures
        rat_eq(sum_of(s.remove(i)), sub_r(sum_of(s), s[i])),
        rat_eq(sumsq_of(s.remove(i)), sub_r(sumsq_of(s), mul_r(s[i], s[i]))),
    decreases s.len(),
{
    let dl = s.drop_last();
    let x = s.last();
    assert(all_wf(dl));
    lemma_sum_wf(s);
    lemma_sum_wf(dl);
    if i == s.len() - 1 {
        assert(s.remove(i) =~= dl);
        lemma_add_sub_cancel(sum_of(dl), x);
        assert(1 <= x.d * x.d) by (nonlinear_arith)
            requires
                1 <= x.d,
        {
        }
        lemma_add_sub_cancel(sumsq_of(dl), mul_r(x, x));
    } else {
        assert(s.remove(i) =~= dl.remove(i).push(x));
        assert(all_wf(dl.remove(i)));
        lemma_sum_remove(dl, i);
        lemma_sum_wf(dl.remove(i));
        lemma_sum_push(dl.remove(i), x);
        assert(dl[i] == s[i]);
        let xx = mul_r(x, x);
        let sisi = mul_r(s[i], s[i]);
        lemma_rwf2(x, x);
        lemma_rwf2(s[i], s[i]);
        lemma_rwf2(sum_of(dl), s[i]);
        lemma_rwf2(sumsq_of(dl), sisi);
        lemma_rwf2(sub_r(sum_of(dl), s[i]), x);
        lemma_rwf2(sub_r(sumsq_of(dl), sisi), xx);
        lemma_rwf2(sum_of(s), s[i]);
        lemma_rwf2(sumsq_of(s), sisi);
        lemma_rwf2(sum_of(dl.remove(i)), x);
        lemma_rwf2(sumsq_of(dl.remove(i)), xx);
        lemma_add_congr(sum_of(dl.remove(i)), x, sub_r(sum_of(dl), s[i]), x);
        lemma_add_sub_swap(sum_of(dl), s[i], x);
        lemma_eq_trans(
            sum_of(s.remove(i)),
            add_r(sub_r(sum_of(dl), s[i]), x),
            sub_r(sum_of(s), s[i]),
        );
        lemma_add_congr(sumsq_of(dl.remove(i)), xx, sub_r(sumsq_of(dl), sisi), xx);
        lemma_add_sub_swap(sumsq_of(dl), sisi, xx);
        lemma_eq_trans(
            sumsq_of(s.remove(i)),
            add_r(sub_r(sumsq_of(dl), sisi), xx),
            sub_r(sumsq_of(s), sisi),
        );
    }
}

/// `g` divides `x` exactly.
pub open spec fn divides(g: int, x: int) -> bool {
    exists|k: int| x == #[trigger] (g * k)
}

/// The greatest common divisor of a pair with a positive second component is
/// positive.
pub proof fn lemma_gcd_pos(a: nat, b: nat)
    requires
        1 <= b,
    ensures
        1 <= gcd(a, b),
    decreases b,
{
    if a % b == 0 {
        assert(gcd(a, b) == gcd(b, 0nat));
    } else {
        lemma_gcd_pos(b, a % b);
    }
}

/// The greatest common divisor divides both of its arguments.
pub proof fn lemma_gcd_divides(a: nat, b: nat)
    ensures
        divides(gcd(a, b) as int, a as int),
        divides(gcd(a, b) as int, b as int),
    decreases b,
{
    if b == 0 {
        assert(a as int == a as int * 1);
        assert(b as int == a as int * 0);
    } else {
        lemma_gcd_divides(b, a % b);
        let g = gcd(b, a % b) as int;
        let k1 = choose|k: int| b as int == #[trigger] (g * k);
        let k2 = choose|k: int| (a % b) as int == #[trigger] (g * k);
        vstd::arithmetic::div_mod::lemma_fundamental_div_mod(a as int, b as int);
        assert(a as int == b as int * (a as int / b as int) + a as int % b as int);
        assert(a as int == g * (k1 * (a as int / b as int) + k2)) by (nonlinear_arith)
            requires
                a as int == b as int * (a as int / b as int) + a as int % b as int,
                b as int == g * k1,
                (a % b) as int == g * k2,
        {
        }
    }
}

/// Dividing a non-negative integer by an exact positive divisor recovers the
/// cofactor, shrinks the magnitude, and keeps positivity.
proof fn lemma_exact_div(x: int, g: int)
    requires
        0 <= x,
        1 <= g,
        divides(g, x),
    ensures
        (x / g) * g == x,
        0 <= x / g <= x,
        1 <= x ==> 1 <= x / g,
    decreases 0int,
{
    let k = choose|k: int| x == #[trigger] (g * k);
    vstd::arithmetic::div_mod::lemma_div_multiples_vanish(k, g);
    assert(x / g == k);
    assert(k * g == g * k && 0 <= k && k <= x && (1 <= x ==> 1 <= k)) by (nonlinear_arith)
        requires
            x == g * k,
            0 <= x,
            1 <= g,
    {
    }
}

/// Normalization keeps the value, well-formedness, and the 64-bit range.
pub proof fn lemma_norm2(n: int, d: int)
    requires
        1 <= d,
    ensures
        rwf(norm2(n, d)),
        rat_eq(norm2(n, d), Ratio { n, d }),
        abs(norm2(n, d).n) <= abs(n),
        norm2(n, d).d <= d,
{
    let an = abs(n) as int;
    let g = gcd(abs(n), d as nat) as int;
    lemma_gcd_pos(abs(n), d as nat);
    lemma_gcd_divides(abs(n), d as nat);
    lemma_exact_div(an, g);
    lemma_exact_div(d, g);
    let p = an / g;
    let q = d / g;
    if n >= 0 {
        assert(norm2(n, d) == Ratio { n: p, d: q });
        assert(p * d == n * q) by (nonlinear_arith)
            requires
                p * g == an,
                q * g == d,
                n == an,
        {
        }
    } else {
        assert(norm2(n, d) == Ratio { n: -p, d: q });
        assert((-p) * d == n * q) by (nonlinear_arith)
            requires
                p * g == an,
                q * g == d,
                n == -an,
        {
        }
    }
}

/// The executable addition result is well-formed and equal in value to the
/// exact sum.
pub proof fn lemma_add_v(a: Ratio, b: Ratio)
    requires
        rwf(a),
        rwf(b),
    ensures
        rwf(add_v(a, b)),
        rat_eq(add_v(a, b), add_r(a, b)),
        rwf(add_r(a, b)),
{
    assert(1 <= a.d * b.d) by (nonlinear_arith)
        requires
            1 <= a.d,
            1 <= b.d,
    {
    }
    lemma_norm2(add_r(a, b).n, add_r(a, b).d);
}

/// The executable subtraction result is well-formed and equal in value to the
/// exact difference.
pub proof fn lemma_sub_v(a: Ratio, b: Ratio)
    requires
        rwf(a),
        rwf(b),
    ensures
        rwf(sub_v(a, b)),
        rat_eq(sub_v(a, b), sub_r(a, b)),
        rwf(sub_r(a, b)),
{
    assert(1 <= a.d * b.d) by (nonlinear_arith)
        requires
            1 <= a.d,
            1 <= b.d,
    {
    }
    lemma_norm2(sub_r(a, b).n, sub_r(a, b).d);
}

/// The executable multiplication result is well-formed and equal in value to
/// the exact product.
pub proof fn lemma_mul_v(a: Ratio, b: Ratio)
    requires
        rwf(a),
        rwf(b),
    ensures
        rwf(mul_v(a, b)),
        rat_eq(mul_v(a, b), mul_r(a, b)),
        rwf(mul_r(a, b)),
{
    assert(1 <= a.d * b.d) by (nonlinear_arith)
        requires
            1 <= a.d,
            1 <= b.d,
    {
    }
    lemma_norm2(mul_r(a, b).n, mul_r(a, b).d);
}

/// The executable division result is well-formed and equal in value to the
/// exact quotient.
pub proof fn lemma_div_v(a: Ratio, b: Ratio)
    requires
        rwf(a),
        rwf(b),
        b.n != 0,
    ensures
        rwf(div_v(a, b)),
        rat_eq(div_v(a, b), div_r(a, b)),
        rwf(div_r(a, b)),
{
    if b.n > 0 {
        assert(1 <= a.d * b.n) by (nonlinear_arith)
            requires
                1 <= a.d,
                1 <= b.n,
        {
        }
    } else {
        assert(1 <= -(a.d * b.n)) by (nonlinear_arith)
            requires
                1 <= a.d,
                b.n <= -1,
        {
        }
    }
    lemma_norm2(div_r(a, b).n, div_r(a, b).d);
}

/// Value equality is transitive across a well-formed middle term.
pub proof fn lemma_eq_trans(a: Ratio, b: Ratio, c: Ratio)
    requires
        rwf(a),
        rwf(b),
        rwf(c),
        rat_eq(a, b),
        rat_eq(b, c),
    ensures
        rat_eq(a, c),
{
    assert(a.n * c.d == c.n * a.d) by (nonlinear_arith)
        requires
            a.n * b.d == b.n * a.d,
            b.n * c.d == c.n * b.d,
            1 <= b.d,
    {
    }
}

/// The order respects value equality on both sides.
pub proof fn lemma_le_congr(a: Ratio, b: Ratio, a2: Ratio, b2: Ratio)
    requires
        rwf(a),
        rwf(b),
        rwf(a2),
        rwf(b2),
        rat_eq(a, a2),
        rat_eq(b, b2),
        rat_le(a, b),
    ensures
        rat_le(a2, b2),
{
    assert(a2.n * b2.d <= b2.n * a2.d) by (nonlinear_arith)
        requires
            a.n * a2.d == a2.n * a.d,
            b.n * b2.d == b2.n * b.d,
            a.n * b.d <= b.n * a.d,
            1 <= a.d,
            1 <= b.d,
            1 <= a2.d,
            1 <= b2.d,
    {
    }
}

/// The strict order respects value equality on both sides.
pub proof fn lemma_lt_congr(a: Ratio, b: Ratio, a2: Ratio, b2: Ratio)
    requires
        rwf(a),
        rwf(b),
        rwf(a2),
        rwf(b2),
        rat_eq(a, a2),
        rat_eq(b, b2),
        rat_lt(a, b),
    ensures
        rat_lt(a2, b2),
{
    assert(a2.n * b2.d < b2.n * a2.d) by (nonlinear_arith)
        requires
            a.n * a2.d == a2.n * a.d,
            b.n * b2.d == b2.n * b.d,
            a.n * b.d < b.n * a.d,
            1 <= a.d,
            1 <= b.d,
            1 <= a2.d,
            1 <= b2.d,
    {
    }
}

/// The order is transitive.
pub proof fn lemma_le_trans(a: Ratio, b: Ratio, c: Ratio)
    requires
        rwf(a),
        rwf(b),
        rwf(c),
        rat_le(a, b),
        rat_le(b, c),
    ensures
        rat_le(a, c),
{
    assert(a.n * c.d <= c.n * a.d) by (nonlinear_arith)
        requires
            a.n * b.d <= b.n * a.d,
            b.n * c.d <= c.n * b.d,
            1 <= a.d,
            1 <= b.d,
            1 <= c.d,
    {
    }
}


/// Four-factor products may be regrouped freely.
proof fn lemma_mul4(p: int, q: int, r: int, s: int)
    ensures
        (p * q) * (r * s) == (p * r) * (q * s),
        (p * q) * (r * s) == (p * s) * (r * q),
{
    assert((p * q) * (r * s) == (p * r) * (q * s)) by (nonlinear_arith) {}
    assert((p * q) * (r * s) == (p * s) * (r * q)) by (nonlinear_arith) {}
}

/// Addition respects value equality in its left operand.
proof fn lemma_add_congr_left(x: Ratio, y: Ratio, c: Ratio)
    requires
        rwf(x),
        rwf(y),
        rwf(c),
        rat_eq(x, y),
    ensures
        rat_eq(add_r(x, c), add_r(y, c)),
{
    vstd::arithmetic::mul::lemma_mul_is_distributive_add_other_way(y.d * c.d, x.n * c.d, c.n * x.d);
    vstd::arithmetic::mul::lemma_mul_is_distributive_add_other_way(x.d * c.d, y.n * c.d, c.n * y.d);
    lemma_mul4(x.n, c.d, y.d, c.d);
    lemma_mul4(y.n, c.d, x.d, c.d);
    lemma_mul4(c.n, x.d, y.d, c.d);
    assert((x.n * y.d) * (c.d * c.d) == (y.n * x.d) * (c.d * c.d));
}

/// Addition respects value equality in its right operand.
proof fn lemma_add_congr_right(c: Ratio, x: Ratio, y: Ratio)
    requires
        rwf(x),
        rwf(y),
        rwf(c),
        rat_eq(x, y),
    ensures
        rat_eq(add_r(c, x), add_r(c, y)),
{
    vstd::arithmetic::mul::lemma_mul_is_distributive_add_other_way(c.d * y.d, c.n * x.d, x.n * c.d);
    vstd::arithmetic::mul::lemma_mul_is_distributive_add_other_way(c.d * x.d, c.n * y.d, y.n * c.d);
    lemma_mul4(c.n, x.d, c.d, y.d);
    lemma_mul4(c.n, y.d, c.d, x.d);
    vstd::arithmetic::mul::lemma_mul_is_commutative(x.d, y.d);
    lemma_mul4(x.n, c.d, c.d, y.d);
    lemma_mul4(y.n, c.d, c.d, x.d);
    assert((x.n * y.d) * (c.d * c.d) == (y.n * x.d) * (c.d * c.d));
}

/// Addition respects value equality in both operands.
pub proof fn lemma_add_congr(a: Ratio, b: Ratio, a2: Ratio, b2: Ratio)
    requires
        rwf(a),
        rwf(b),
        rwf(a2),
        rwf(b2),
        rat_eq(a, a2),
        rat_eq(b, b2),
    ensures
        rat_eq(add_r(a, b), add_r(a2, b2)),
{
    lemma_add_congr_left(a, a2, b);
    lemma_add_congr_right(a2, b, b2);
    lemma_rwf2(a, b);
    lemma_rwf2(a2, b);
    lemma_rwf2(a2, b2);
    lemma_eq_trans(add_r(a, b), add_r(a2, b), add_r(a2, b2));
}

/// Subtraction respects value equality in its left operand.
proof fn lemma_sub_congr_left(x: Ratio, y: Ratio, c: Ratio)
    requires
        rwf(x),
        rwf(y),
        rwf(c),
        rat_eq(x, y),
    ensures
        rat_eq(sub_r(x, c), sub_r(y, c)),
{
    vstd::arithmetic::mul::lemma_mul_is_distributive_sub_other_way(y.d * c.d, x.n * c.d, c.n * x.d);
    vstd::arithmetic::mul::lemma_mul_is_distributive_sub_other_way(x.d * c.d, y.n * c.d, c.n * y.d);
    lemma_mul4(x.n, c.d, y.d, c.d);
    lemma_mul4(y.n, c.d, x.d, c.d);
    lemma_mul4(c.n, x.d, y.d, c.d);
    assert((x.n * y.d) * (c.d * c.d) == (y.n * x.d) * (c.d * c.d));
}

/// Subtraction respects value equality in its right operand.
proof fn lemma_sub_congr_right(c: Ratio, x: Ratio, y: Ratio)
    requires
        rwf(x),
        rwf(y),
        rwf(c),
        rat_eq(x, y),
    ensures
        rat_eq(sub_r(c, x), sub_r(c, y)),
{
    vstd::arithmetic::mul::lemma_mul_is_distributive_sub_other_way(c.d * y.d, c.n * x.d, x.n * c.d);
    vstd::arithmetic::mul::lemma_mul_is_distributive_sub_other_way(c.d * x.d, c.n * y.d, y.n * c.d);
    lemma_mul4(c.n, x.d, c.d, y.d);
    lemma_mul4(c.n, y.d, c.d, x.d);
    vstd::arithmetic::mul::lemma_mul_is_commutative(x.d, y.d);
    lemma_mul4(x.n, c.d, c.d, y.d);
    lemma_mul4(y.n, c.d, c.d, x.d);
    assert((x.n * y.d) * (c.d * c.d) == (y.n * x.d) * (c.d * c.d));
}

/// Subtraction respects value equality in both operands.
pub proof fn lemma_sub_congr(a: Ratio, b: Ratio, a2: Ratio, b2: Ratio)
    requires
        rwf(a),
        rwf(b),
        rwf(a2),
        rwf(b2),
        rat_eq(a, a2),
        rat_eq(b, b2),
    ensures
        rat_eq(sub_r(a, b), sub_r(a2, b2)),
{
    lemma_sub_congr_left(a, a2, b);
    lemma_sub_congr_right(a2, b, b2);
    lemma_rwf2(a, b);
    lemma_rwf2(a2, b);
    lemma_rwf2(a2, b2);
    lemma_eq_trans(sub_r(a, b), sub_r(a2, b), sub_r(a2, b2));
}

/// Multiplication respects value equality in both operands.
pub proof fn lemma_mul_congr(a: Ratio, b: Ratio, a2: Ratio, b2: Ratio)
    requires
        rwf(a),
        rwf(b),
        rwf(a2),
        rwf(b2),
        rat_eq(a, a2),
        rat_eq(b, b2),
    ensures
        rat_eq(mul_r(a, b), mul_r(a2, b2)),
{
    lemma_mul4(a.n, b.n, a2.d, b2.d);
    lemma_mul4(a2.n, b2.n, a.d, b.d);
    lemma_mul4(a.n, a2.d, b.n, b2.d);
    lemma_mul4(a2.n, a.d, b2.n, b.d);
    assert((a.n * a2.d) * (b.n * b2.d) == (a2.n * a.d) * (b2.n * b.d));
}

/// Division respects value equality in both operands, for divisors that are
/// not zero in value.
pub proof fn lemma_div_congr(a: Ratio, b: Ratio, a2: Ratio, b2: Ratio)
    requires
        rwf(a),
        rwf(b),
        rwf(a2),
        rwf(b2),
        rat_eq(a, a2),
        rat_eq(b, b2),
        b.n != 0,
    ensures
        b2.n != 0,
        rat_eq(div_r(a, b), div_r(a2, b2)),
{
    assert(b2.n != 0 && (b.n > 0 <==> b2.n > 0)) by (nonlinear_arith)
        requires
            b.n * b2.d == b2.n * b.d,
            1 <= b.d,
            1 <= b2.d,
            b.n != 0,
    {
    }
    lemma_mul4(a.n, b.d, a2.d, b2.n);
    lemma_mul4(a2.n, b2.d, a.d, b.n);
    lemma_mul4(a.n, a2.d, b.d, b2.n);
    lemma_mul4(a2.n, a.d, b2.d, b.n);
    vstd::arithmetic::mul::lemma_mul_is_commutative(b.d, b2.n);
    vstd::arithmetic::mul::lemma_mul_is_commutative(b2.d, b.n);
    assert((a.n * a2.d) * (b2.n * b.d) == (a2.n * a.d) * (b.n * b2.d));
    assert((a.n * b.d) * (a2.d * b2.n) == (a2.n * b2.d) * (a.d * b.n));
    if b.n > 0 {
    } else {
        assert((-(a.n * b.d)) * (-(a2.d * b2.n)) == (-(a2.n * b2.d)) * (-(a.d * b.n)))
            by (nonlinear_arith)
            requires
                (a.n * b.d) * (a2.d * b2.n) == (a2.n * b2.d) * (a.d * b.n),
        {
        }
    }
}


/// Regrouping helper: a five-factor product reassociated around an opaque
/// factor.
proof fn lemma_shuffle_left(i: int, md: int, sd: int, xd: int, k: int)
    ensures
        (md * i) * ((sd * xd) * k) == (i * (sd * xd)) * (md * k),
{
    assert((md * i) * ((sd * xd) * k) == (i * (sd * xd)) * (md * k)) by (nonlinear_arith) {}
}

/// Regrouping helper for the right-hand side of the mean recurrences.
proof fn lemma_shuffle_right(c: int, md: int, xd: int, k: int)
    ensures
        (c * 1) * (md * ((xd * md) * k)) == (c * (md * xd)) * (md * k),
{
    assert((c * 1) * (md * ((xd * md) * k)) == (c * (md * xd)) * (md * k)) by (nonlinear_arith) {}
}

/// The algebraic heart of both mean recurrences, after the common factors
/// have been pulled out.
proof fn lemma_mean_core(mn: int, md: int, xn: int, xd: int, sn: int, sd: int, j: int)
    requires
        mn * (sd * j) == sn * md,
    ensures
        (mn * (xd * j) + xn * md) * (sd * xd) == (sn * xd + xn * sd) * (md * xd),
        (mn * (xd * j) - xn * md) * (sd * xd) == (sn * xd - xn * sd) * (md * xd),
{
    vstd::arithmetic::mul::lemma_mul_is_distributive_add_other_way(
        sd * xd,
        mn * (xd * j),
        xn * md,
    );
    vstd::arithmetic::mul::lemma_mul_is_distributive_add_other_way(md * xd, sn * xd, xn * sd);
    vstd::arithmetic::mul::lemma_mul_is_distributive_sub_other_way(
        sd * xd,
        mn * (xd * j),
        xn * md,
    );
    vstd::arithmetic::mul::lemma_mul_is_distributive_sub_other_way(md * xd, sn * xd, xn * sd);
    assert((mn * (xd * j)) * (sd * xd) == (mn * (sd * j)) * (xd * xd)) by (nonlinear_arith) {}
    assert((sn * xd) * (md * xd) == (sn * md) * (xd * xd)) by (nonlinear_arith) {}
    assert((xn * md) * (sd * xd) == (xn * sd) * (md * xd)) by (nonlinear_arith) {}
}


/// Numerator rearrangement for one mean update step.
proof fn lemma_mean_numer_add(mn: int, md: int, xn: int, xd: int, k: int) by (nonlinear_arith)
    ensures
        mn * ((xd * md) * k) + ((xn * md - mn * xd) * 1) * md == md * (mn * (xd * (k - 1)) + xn
            * md),
{
}

/// Three-factor regrouping with an explicit middle factor.
proof fn lemma_regroup_d(c: int, u: int, v: int, k: int)
    ensures
        c * ((u * v) * k) == v * (c * (u * k)),
        c * ((u * v) * 1) == (c * u) * v,
{
    assert(c * ((u * v) * k) == v * (c * (u * k))) by (nonlinear_arith) {}
    assert(c * ((u * v) * 1) == (c * u) * v) by (nonlinear_arith) {}
}

/// Numerator rearrangement for one mean revert step.
proof fn lemma_mean_numer_sub(mn: int, md: int, xn: int, xd: int, k: int)
    ensures
        mn * ((xd * md) * (k - 1)) - ((xn * md - mn * xd) * 1) * md == md * (mn * (xd * k) - xn
            * md),
{
    vstd::arithmetic::mul::lemma_mul_is_distributive_sub(xd * md, k, 1);
    vstd::arithmetic::mul::lemma_mul_is_distributive_sub(mn, (xd * md) * k, (xd * md) * 1);
    vstd::arithmetic::mul::lemma_mul_is_distributive_sub_other_way(md, xn * md, mn * xd);
    vstd::arithmetic::mul::lemma_mul_is_distributive_sub(md, mn * (xd * k), xn * md);
    lemma_regroup_d(mn, xd, md, k);
    assert((xn * md) * md == md * (xn * md)) by (nonlinear_arith) {}
    assert((mn * xd) * md == mn * ((xd * md) * 1)) by (nonlinear_arith) {}
    assert(((xn * md - mn * xd) * 1) * md == (xn * md - mn * xd) * md);
}

/// Regrouping helper for the right-hand denominator of the Welford step.
proof fn lemma_regroup_f(q: int, u: int, v: int, k: int)
    ensures
        (q * u) * ((u * v) * k) == u * (q * (u * (v * k))),
{
    assert((q * u) * ((u * v) * k) == u * (q * (u * (v * k)))) by (nonlinear_arith) {}
}

/// The two denominators of the Welford step differ by a factor `k - 1`.
proof fn lemma_welford_denoms(qd: int, sd: int, xd: int, k: int) by (nonlinear_arith)
    ensures
        (qd * ((sd * sd) * (k - 1))) * ((xd * xd) * k) == (k - 1) * (qd * ((xd * xd) * ((sd * sd)
            * k))),
{
}

/// One step of the running-mean recurrence: when `m` is the mean of a sum
/// `s` over `k - 1` observations, incorporating `x` by `m + (x - m)/k`
/// gives the mean of `s + x` over `k` observations.
pub proof fn lemma_mean_step(m: Ratio, x: Ratio, s: Ratio, k: int)
    requires
        rwf(m),
        rwf(x),
        rwf(s),
        2 <= k,
        rat_eq(m, div_r(s, int_r(k - 1))),
    ensures
        rat_eq(add_r(m, div_r(sub_r(x, m), int_r(k))), div_r(add_r(s, x), int_r(k))),
{
    lemma_mean_numer_add(m.n, m.d, x.n, x.d, k);
    lemma_shuffle_left(m.n * (x.d * (k - 1)) + x.n * m.d, m.d, s.d, x.d, k);
    lemma_shuffle_right(s.n * x.d + x.n * s.d, m.d, x.d, k);
    lemma_mean_core(m.n, m.d, x.n, x.d, s.n, s.d, k - 1);
    assert((m.n * (x.d * (k - 1)) + x.n * m.d) * (s.d * x.d) * (m.d * k) == ((s.n * x.d + x.n * s.d)
        * (m.d * x.d)) * (m.d * k));
}

/// One step of the running-mean reversal: when `m` is the mean of a sum `s`
/// over `k` observations, removing `x` by `m - (x - m)/(k - 1)` gives the
/// mean of `s - x` over `k - 1` observations.
pub proof fn lemma_mean_revert(m: Ratio, x: Ratio, s: Ratio, k: int)
    requires
        rwf(m),
        rwf(x),
        rwf(s),
        2 <= k,
        rat_eq(m, div_r(s, int_r(k))),
    ensures
        rat_eq(sub_r(m, div_r(sub_r(x, m), int_r(k - 1))), div_r(sub_r(s, x), int_r(k - 1))),
{
    lemma_mean_numer_sub(m.n, m.d, x.n, x.d, k);
    lemma_shuffle_left(m.n * (x.d * k) - x.n * m.d, m.d, s.d, x.d, k - 1);
    lemma_shuffle_right(s.n * x.d - x.n * s.d, m.d, x.d, k - 1);
    lemma_mean_core(m.n, m.d, x.n, x.d, s.n, s.d, k);
    assert((m.n * (x.d * k) - x.n * m.d) * (s.d * x.d) * (m.d * (k - 1)) == ((s.n * x.d - x.n * s.d)
        * (m.d * x.d)) * (m.d * (k - 1)));
}

/// The first observation: a zero-valued mean updated with `x` over a count
/// of one is exactly the mean of the one-element stream.
pub proof fn lemma_mean_first(m: Ratio, x: Ratio)
    requires
        rwf(m),
        rwf(x),
        rat_eq(m, int_r(0)),
    ensures
        rat_eq(add_r(m, div_r(sub_r(x, m), int_r(1))), div_r(add_r(int_r(0), x), int_r(1))),
{
    assert((m.n * ((x.d * m.d) * 1) + ((x.n * m.d - m.n * x.d) * 1) * m.d) * ((1 * x.d) * 1) == ((0
        * x.d + x.n * 1) * 1) * (m.d * ((x.d * m.d) * 1))) by (nonlinear_arith)
        requires
            m.n == 0,
    {
    }
}

/// The numerator of the second deviation of a Welford step is the core
/// deviation, scaled by the denominator of the incoming value.
proof fn lemma_t2n(sn: int, sd: int, xn: int, xd: int, k: int)
    ensures
        xn * ((sd * xd) * k) - ((sn * xd + xn * sd) * 1) * xd == xd * (xn * (sd * (k - 1)) - (sn
            * 1) * xd),
{
    assert(xn * ((sd * xd) * k) == ((xn * sd) * xd) * k) by (nonlinear_arith) {}
    assert((sn * xd + xn * sd) * 1 == sn * xd + xn * sd);
    vstd::arithmetic::mul::lemma_mul_is_distributive_add_other_way(xd, sn * xd, xn * sd);
    vstd::arithmetic::mul::lemma_mul_is_distributive_sub(
        xd,
        xn * (sd * (k - 1)),
        (sn * 1) * xd,
    );
    assert(xd * (xn * (sd * (k - 1))) == ((xn * sd) * xd) * (k - 1)) by (nonlinear_arith) {}
    assert(xd * ((sn * 1) * xd) == (sn * xd) * xd) by (nonlinear_arith) {}
    assert((xn * sd) * xd == ((xn * sd) * xd) * 1);
    assert(((xn * sd) * xd) * k - ((xn * sd) * xd) * 1 == ((xn * sd) * xd) * (k - 1))
        by (nonlinear_arith) {}
}

/// The square identity at the heart of the Welford step, with the sum and
/// sum-of-squares denominators cleared.
proof fn lemma_welford_core(sn: int, sd: int, xn: int, xd: int, k: int)
    ensures
        (xn * (sd * (k - 1)) - (sn * 1) * xd) * (xn * (sd * (k - 1)) - (sn * 1) * xd) - (sn * sn)
            * ((xd * xd) * k) == (k - 1) * ((xn * xn) * ((sd * sd) * k) - (sn * xd + xn * sd) * (sn
            * xd + xn * sd)),
{
    let a = xn * (sd * (k - 1));
    let b = (sn * 1) * xd;
    let c = sn * xd;
    let e = xn * sd;
    lemma_square_sub(a, b);
    lemma_square_add(c, e);
    assert(a * a == ((xn * xn) * ((sd * sd) * k)) * (k - 1) - (k - 1) * (e * e))
        by (nonlinear_arith)
        requires
            a == xn * (sd * (k - 1)),
            e == xn * sd,
    {
    }
    assert(b * b == c * c) by (nonlinear_arith)
        requires
            b == (sn * 1) * xd,
            c == sn * xd,
    {
    }
    assert(a * b == (k - 1) * (c * e)) by (nonlinear_arith)
        requires
            a == xn * (sd * (k - 1)),
            b == (sn * 1) * xd,
            c == sn * xd,
            e == xn * sd,
    {
    }
    assert((sn * sn) * ((xd * xd) * k) == c * c * k) by (nonlinear_arith)
        requires
            c == sn * xd,
    {
    }
    assert((a - b) * (a - b) - (sn * sn) * ((xd * xd) * k) == ((xn * xn) * ((sd * sd) * k)) * (k
        - 1) - (k - 1) * (e * e) - 2 * ((k - 1) * (c * e)) + c * c - c * c * k);
    assert((k - 1) * ((xn * xn) * ((sd * sd) * k) - (c * c + 2 * (c * e) + e * e)) == ((xn * xn)
        * ((sd * sd) * k)) * (k - 1) - (k - 1) * (e * e) - 2 * ((k - 1) * (c * e)) + c * c - c * c
        * k) by (nonlinear_arith) {}
}

/// Binomial squares over opaque factors.
proof fn lemma_square_sub(a: int, b: int)
    ensures
        (a - b) * (a - b) == a * a - 2 * (a * b) + b * b,
{
    assert((a - b) * (a - b) == a * a - 2 * (a * b) + b * b) by (nonlinear_arith) {}
}

proof fn lemma_square_add(a: int, b: int)
    ensures
        (a + b) * (a + b) == a * a + 2 * (a * b) + b * b,
{
    assert((a + b) * (a + b) == a * a + 2 * (a * b) + b * b) by (nonlinear_arith) {}
}

/// The unnormalized sum of squared deviations of a sequence, in the
/// "sum of squares minus squared sum over count" form.
pub open spec fn ssd_of(s: Seq<Ratio>) -> Ratio {
    if s.len() == 0 {
        int_r(0)
    } else {
        sub_r(sumsq_of(s), div_r(mul_r(sum_of(s), sum_of(s)), int_r(s.len() as int)))
    }
}

/// A product with a zero-valued factor is zero in value.
pub proof fn lemma_mul_zero(u: Ratio, v: Ratio)
    requires
        rwf(u),
        rwf(v),
        rat_eq(v, int_r(0)),
    ensures
        rat_eq(mul_r(u, v), int_r(0)),
{
    assert(u.n * v.n == 0) by (nonlinear_arith)
        requires
            v.n == 0,
    {
    }
}

/// Subtracting equal values gives zero.
pub proof fn lemma_sub_self(a: Ratio, b: Ratio)
    requires
        rwf(a),
        rwf(b),
        rat_eq(a, b),
    ensures
        rat_eq(sub_r(a, b), int_r(0)),
{
}

/// The sum of two zero-valued terms is zero in value.
pub proof fn lemma_add_zero(a: Ratio, b: Ratio)
    requires
        rwf(a),
        rwf(b),
        rat_eq(a, int_r(0)),
        rat_eq(b, int_r(0)),
    ensures
        rat_eq(add_r(a, b), int_r(0)),
{
    assert(a.n * b.d + b.n * a.d == 0) by (nonlinear_arith)
        requires
            a.n == 0,
            b.n == 0,
    {
    }
}

/// Small regrouping helpers for the Welford step, each over opaque factors.
proof fn lemma_regroup_a(c: int, u: int, v: int)
    ensures
        c * (u * v) == u * (c * v),
{
    assert(c * (u * v) == u * (c * v)) by (nonlinear_arith) {}
}

proof fn lemma_regroup_e(q: int, a: int, u: int)
    ensures
        q * (a * u) == ((a * 1) * q) * u,
        q * (a * u) == (a * q) * u,
{
    assert(q * (a * u) == ((a * 1) * q) * u) by (nonlinear_arith) {}
    assert(q * (a * u) == (a * q) * u) by (nonlinear_arith) {}
}

proof fn lemma_regroup_b(c: int, a: int, u: int)
    ensures
        (c * 1) * (a * u) == u * (c * a),
{
    assert((c * 1) * (a * u) == u * (c * a)) by (nonlinear_arith) {}
}

proof fn lemma_regroup_c(g: int, pc: int, u: int, br: int, p: int, bl: int)
    requires
        pc * br == p * bl,
    ensures
        (g * pc) * (u * br) == (u * p) * (g * bl),
{
    assert((g * pc) * (u * br) == (u * p) * (g * bl)) by (nonlinear_arith)
        requires
            pc * br == p * bl,
    {
    }
}

/// One step of Welford's variance recurrence, in closed form: adding the
/// increment `(x - m_old) * (x - m_new)` to the sum of squared deviations of
/// the first `k - 1` observations gives the sum of squared deviations after
/// `x` joins, where `s` and `q` are the running sum and sum of squares of the
/// first `k - 1` observations.
pub proof fn lemma_welford_step(x: Ratio, s: Ratio, q: Ratio, k: int)
    requires
        rwf(x),
        rwf(s),
        rwf(q),
        2 <= k,
    ensures
        rat_eq(
            add_r(
                sub_r(q, div_r(mul_r(s, s), int_r(k - 1))),
                mul_r(sub_r(x, div_r(s, int_r(k - 1))), sub_r(x, div_r(add_r(s, x), int_r(k)))),
            ),
            sub_r(add_r(q, mul_r(x, x)), div_r(mul_r(add_r(s, x), add_r(s, x)), int_r(k))),
        ),
{
    let sn = s.n;
    let sd = s.d;
    let xn = x.n;
    let xd = x.d;
    let qn = q.n;
    let qd = q.d;
    let w = xn * (sd * (k - 1)) - (sn * 1) * xd;
    let ssdn = qn * ((sd * sd) * (k - 1)) - ((sn * sn) * 1) * qd;
    let ssdd = qd * ((sd * sd) * (k - 1));
    let q1n = qn * (xd * xd) + (xn * xn) * qd;
    let aan = (sn * xd + xn * sd) * (sn * xd + xn * sd);
    let p = q1n * ((sd * sd) * k) - aan * qd;
    let g = (sd * sd) * (xd * (k - 1));
    let pc = ssdn * ((xd * xd) * k) + qd * (w * w);
    let br = qd * ((xd * xd) * ((sd * sd) * k));
    let bl = ssdd * ((xd * xd) * k);
    // the second deviation's numerator is the first one's, scaled by xd
    lemma_t2n(sn, sd, xn, xd, k);
    // the increment numerator
    assert((xn * (sd * (k - 1)) - (sn * 1) * xd) * (xn * ((sd * xd) * k) - ((sn * xd + xn * sd) * 1)
        * xd) == w * (xd * w));
    // left-hand numerator factors through g
    assert((w * (xd * w)) * ssdd == g * (qd * (w * w))) by (nonlinear_arith)
        requires
            ssdd == qd * ((sd * sd) * (k - 1)),
            g == (sd * sd) * (xd * (k - 1)),
    {
    }
    assert((xd * (sd * (k - 1))) * (xd * ((sd * xd) * k)) == g * ((xd * xd) * k))
        by (nonlinear_arith)
        requires
            g == (sd * sd) * (xd * (k - 1)),
    {
    }
    lemma_regroup_a(ssdn, g, (xd * xd) * k);
    vstd::arithmetic::mul::lemma_mul_is_distributive_add(
        g,
        ssdn * ((xd * xd) * k),
        qd * (w * w),
    );
    assert(ssdn * ((xd * (sd * (k - 1))) * (xd * ((sd * xd) * k))) + (w * (xd * w)) * ssdd == g
        * pc);
    // right-hand numerator factors through xd * xd
    assert(((sd * xd) * (sd * xd)) * k == (xd * xd) * ((sd * sd) * k)) by (nonlinear_arith) {}
    lemma_regroup_a(q1n, xd * xd, (sd * sd) * k);
    lemma_regroup_b(aan, qd, xd * xd);
    vstd::arithmetic::mul::lemma_mul_is_distributive_sub(
        xd * xd,
        q1n * ((sd * sd) * k),
        aan * qd,
    );
    assert(q1n * (((sd * xd) * (sd * xd)) * k) - (aan * 1) * (qd * (xd * xd)) == (xd * xd) * p);
    // both denominators factor the same way
    assert((sd * xd) * (sd * xd) == (xd * xd) * (sd * sd)) by (nonlinear_arith) {}
    lemma_regroup_f(qd, xd * xd, sd * sd, k);
    assert((qd * (xd * xd)) * (((sd * xd) * (sd * xd)) * k) == (xd * xd) * br);
    lemma_regroup_a(ssdd, g, (xd * xd) * k);
    assert(ssdd * ((xd * (sd * (k - 1))) * (xd * ((sd * xd) * k))) == g * bl);
    // the algebraic core, split into its qn and qd parts
    assert((qn * ((sd * sd) * (k - 1))) * ((xd * xd) * k) == (k - 1) * ((qn * (xd * xd)) * ((sd
        * sd) * k))) by (nonlinear_arith) {}
    lemma_welford_core(sn, sd, xn, xd, k);
    assert(w * w - (sn * sn) * ((xd * xd) * k) == (k - 1) * ((xn * xn) * ((sd * sd) * k) - aan));
    vstd::arithmetic::mul::lemma_mul_is_distributive_sub(
        qd,
        w * w,
        (sn * sn) * ((xd * xd) * k),
    );
    vstd::arithmetic::mul::lemma_mul_is_distributive_sub(
        qd,
        (xn * xn) * ((sd * sd) * k),
        aan,
    );
    lemma_regroup_e(qd, sn * sn, (xd * xd) * k);
    lemma_regroup_e(qd, xn * xn, (sd * sd) * k);
    lemma_regroup_a(qd, k - 1, (xn * xn) * ((sd * sd) * k) - aan);
    assert(qd * aan == aan * qd) by (nonlinear_arith) {}
    assert(qd * (w * w) - (((sn * sn) * 1) * qd) * ((xd * xd) * k) == (k - 1) * (((xn * xn) * qd)
        * ((sd * sd) * k) - aan * qd));
    vstd::arithmetic::mul::lemma_mul_is_distributive_sub_other_way(
        (xd * xd) * k,
        qn * ((sd * sd) * (k - 1)),
        ((sn * sn) * 1) * qd,
    );
    vstd::arithmetic::mul::lemma_mul_is_distributive_add(qn * (xd * xd), (sd * sd) * k, 0);
    assert(pc == (k - 1) * ((qn * (xd * xd)) * ((sd * sd) * k)) + (k - 1) * (((xn * xn) * qd) * ((sd
        * sd) * k) - aan * qd));
    vstd::arithmetic::mul::lemma_mul_is_distributive_add(
        k - 1,
        (qn * (xd * xd)) * ((sd * sd) * k),
        ((xn * xn) * qd) * ((sd * sd) * k) - aan * qd,
    );
    vstd::arithmetic::mul::lemma_mul_is_distributive_add_other_way(
        (sd * sd) * k,
        qn * (xd * xd),
        (xn * xn) * qd,
    );
    assert(pc == (k - 1) * p);
    // bl is br scaled by k - 1
    lemma_welford_denoms(qd, sd, xd, k);
    assert(bl == (k - 1) * br);
    assert(pc * br == p * bl) by (nonlinear_arith)
        requires
            pc == (k - 1) * p,
            bl == (k - 1) * br,
    {
    }
    lemma_regroup_c(g, pc, xd * xd, br, p, bl);
}
/// Multiplication is commutative in value.
pub proof fn lemma_mul_comm_val(u: Ratio, v: Ratio)
    ensures
        rat_eq(mul_r(u, v), mul_r(v, u)),
{
    assert((u.n * v.n) * (v.d * u.d) == (v.n * u.n) * (u.d * v.d)) by (nonlinear_arith) {}
}

/// Subtracting a zero-valued term keeps the value.
pub proof fn lemma_sub_zero(a: Ratio, b: Ratio)
    requires
        rwf(a),
        rwf(b),
        rat_eq(b, int_r(0)),
    ensures
        rat_eq(sub_r(a, b), a),
{
    assert((a.n * b.d - b.n * a.d) * a.d == a.n * (a.d * b.d)) by (nonlinear_arith)
        requires
            b.n == 0,
    {
    }
}

/// Adding a term and then subtracting it restores the value, stated for the
/// order used by the windowed accumulators.
pub proof fn lemma_sub_add_cancel(a: Ratio, b: Ratio)
    requires
        rwf(a),
        rwf(b),
    ensures
        rat_eq(add_r(sub_r(a, b), b), a),
{
    assert(((a.n * b.d - b.n * a.d) * b.d + b.n * (a.d * b.d)) * a.d == a.n * ((a.d * b.d) * b.d))
        by (nonlinear_arith) {}
}

/// The sum of squared deviations of a one-element stream is zero.
pub proof fn lemma_ssd_single(h: Seq<Ratio>)
    requires
        h.len() == 1,
        rwf(h[0]),
    ensures
        rat_eq(ssd_of(h), int_r(0)),
{
    let y = h[0];
    assert(h.drop_last() =~= Seq::<Ratio>::empty());
    assert(h.last() == y);
    assert(sum_of(Seq::<Ratio>::empty()) == int_r(0));
    assert(sumsq_of(Seq::<Ratio>::empty()) == int_r(0));
    assert(sum_of(h) == add_r(int_r(0), y));
    assert(sumsq_of(h) == add_r(int_r(0), mul_r(y, y)));
    let sy = add_r(int_r(0), y);
    assert((sumsq_of(h).n * (mul_r(sy, sy).d * 1) - (mul_r(sy, sy).n * 1) * sumsq_of(h).d) * 1 == 0
        * (ssd_of(h).d)) by (nonlinear_arith)
        requires
            sumsq_of(h) == add_r(int_r(0), mul_r(y, y)),
            sy == add_r(int_r(0), y),
    {
    }
}

/// One Welford update step over whole histories: adding the increment
/// `(x - mean before) * (x - mean after)` to the running sum of squared
/// deviations tracks the stream exactly.
pub proof fn lemma_ssd_push(h: Seq<Ratio>, x: Ratio)
    requires
        all_wf(h),
        rwf(x),
        h.len() > 0,
    ensures
        rat_eq(
            add_r(
                ssd_of(h),
                mul_r(
                    sub_r(x, div_r(sum_of(h), int_r(h.len() as int))),
                    sub_r(x, div_r(sum_of(h.push(x)), int_r(h.len() + 1 as int))),
                ),
            ),
            ssd_of(h.push(x)),
        ),
{
    lemma_sum_push(h, x);
    lemma_sum_wf(h);
    lemma_welford_step(x, sum_of(h), sumsq_of(h), h.len() + 1 as int);
}
/// Strict-then-weak transitivity of the order.
pub proof fn lemma_lt_le_trans(a: Ratio, b: Ratio, c: Ratio)
    requires
        rwf(a),
        rwf(b),
        rwf(c),
        rat_lt(a, b),
        rat_le(b, c),
    ensures
        rat_lt(a, c),
{
    assert(a.n * c.d < c.n * a.d) by (nonlinear_arith)
        requires
            a.n * b.d < b.n * a.d,
            b.n * c.d <= c.n * b.d,
            1 <= a.d,
            1 <= b.d,
            1 <= c.d,
    {
    }
}
/// The absolute value.
pub open spec fn abs_r(a: Ratio) -> Ratio {
    if a.n >= 0 {
        a
    } else {
        neg_r(a)
    }
}

/// Running minimum with the largest representable sentinel.
pub open spec fn min_acc(s: Seq<Ratio>) -> Ratio
    decreases s.len(),
{
    if s.len() == 0 {
        int_r(i64::MAX as int)
    } else if rat_lt(s.last(), min_acc(s.drop_last())) {
        s.last()
    } else {
        min_acc(s.drop_last())
    }
}

/// Running maximum with the smallest representable sentinel.
pub open spec fn max_acc(s: Seq<Ratio>) -> Ratio
    decreases s.len(),
{
    if s.len() == 0 {
        int_r(-(i64::MAX as int))
    } else if rat_lt(max_acc(s.drop_last()), s.last()) {
        s.last()
    } else {
        max_acc(s.drop_last())
    }
}

/// Running maximum of absolute values, starting from zero.
pub open spec fn absmax_acc(s: Seq<Ratio>) -> Ratio
    decreases s.len(),
{
    if s.len() == 0 {
        int_r(0)
    } else if rat_lt(absmax_acc(s.drop_last()), abs_r(s.last())) {
        abs_r(s.last())
    } else {
        absmax_acc(s.drop_last())
    }
}

/// The running order statistics stay well-formed.
pub proof fn lemma_acc_wf(s: Seq<Ratio>)
    requires
        all_wf(s),
    ensures
        rwf(min_acc(s)),
        rwf(max_acc(s)),
        rwf(absmax_acc(s)),
    decreases s.len(),
{
    if s.len() > 0 {
        assert(all_wf(s.drop_last()));
        lemma_acc_wf(s.drop_last());
    }
}
/// Expansion of a product of two-term differences, over opaque factors.
proof fn lemma_prod_sub(a: int, b: int, c: int, d: int)
    ensures
        (a - b) * (c - d) == a * c - a * d - b * c + b * d,
{
    assert((a - b) * (c - d) == a * c - a * d - b * c + b * d) by (nonlinear_arith) {}
}

/// Expansion of a product of two-term sums, over opaque factors.
proof fn lemma_prod_add(a: int, b: int, c: int, d: int)
    ensures
        (a + b) * (c + d) == a * c + a * d + b * c + b * d,
{
    assert((a + b) * (c + d) == a * c + a * d + b * c + b * d) by (nonlinear_arith) {}
}

/// Splitting a square of `k - 1` into a `k`-part and a remainder.
proof fn lemma_ksq(t: int, k: int)
    ensures
        t * ((k - 1) * (k - 1)) == (t * k) * (k - 1) - (k - 1) * t,
{
    assert(t * ((k - 1) * (k - 1)) == (t * k) * (k - 1) - (k - 1) * t) by (nonlinear_arith) {}
}

/// Generalized denominator scaling of the Welford steps.
proof fn lemma_denoms2(q: int, a: int, b: int, k: int)
    ensures
        (q * (a * (k - 1))) * (b * k) == (k - 1) * (q * (b * (a * k))),
{
    assert((q * (a * (k - 1))) * (b * k) == (k - 1) * (q * (b * (a * k)))) by (nonlinear_arith) {}
}

/// Generalized numerator scaling of the Welford steps.
proof fn lemma_qcore2(qn: int, a: int, b: int, k: int)
    ensures
        (qn * (a * (k - 1))) * (b * k) == (k - 1) * ((qn * b) * (a * k)),
{
    assert((qn * (a * (k - 1))) * (b * k) == (k - 1) * ((qn * b) * (a * k))) by (nonlinear_arith) {}
}

/// The cross identity at the heart of the covariance step, with the sum
/// denominators cleared.
proof fn lemma_cross_core(sxn: int, sxd: int, syn: int, syd: int, xn: int, xd: int, yn: int, yd: int, k: int)
    ensures
        (xn * (sxd * (k - 1)) - (sxn * 1) * xd) * (yn * (syd * (k - 1)) - (syn * 1) * yd) - (sxn
            * syn) * ((xd * yd) * k) == (k - 1) * ((xn * yn) * ((sxd * syd) * k) - (sxn * xd + xn
            * sxd) * (syn * yd + yn * syd)),
{
    let a = xn * (sxd * (k - 1));
    let b = (sxn * 1) * xd;
    let c = yn * (syd * (k - 1));
    let d = (syn * 1) * yd;
    lemma_prod_sub(a, b, c, d);
    lemma_prod_add(sxn * xd, xn * sxd, syn * yd, yn * syd);
    assert(a * c == ((xn * yn) * (sxd * syd)) * ((k - 1) * (k - 1))) by (nonlinear_arith)
        requires
            a == xn * (sxd * (k - 1)),
            c == yn * (syd * (k - 1)),
    {
    }
    lemma_ksq((xn * yn) * (sxd * syd), k);
    assert(((xn * yn) * (sxd * syd)) * k == (xn * yn) * ((sxd * syd) * k)) by (nonlinear_arith) {}
    lemma_mul4(xn, yn, sxd, syd);
    assert((xn * yn) * (sxd * syd) == (xn * sxd) * (yn * syd));
    assert(a * c == ((xn * yn) * ((sxd * syd) * k)) * (k - 1) - (k - 1) * ((xn * sxd) * (yn
        * syd)));
    assert(a * d == (k - 1) * ((xn * sxd) * (syn * yd))) by (nonlinear_arith)
        requires
            a == xn * (sxd * (k - 1)),
            d == (syn * 1) * yd,
    {
    }
    assert(b * c == (k - 1) * ((sxn * xd) * (yn * syd))) by (nonlinear_arith)
        requires
            b == (sxn * 1) * xd,
            c == yn * (syd * (k - 1)),
    {
    }
    assert(b * d == (sxn * xd) * (syn * yd)) by (nonlinear_arith)
        requires
            b == (sxn * 1) * xd,
            d == (syn * 1) * yd,
    {
    }
    assert((sxn * syn) * ((xd * yd) * k) == (sxn * xd) * (syn * yd) + (k - 1) * ((sxn * xd) * (syn
        * yd))) by (nonlinear_arith) {}
    vstd::arithmetic::mul::lemma_mul_is_distributive_sub(
        k - 1,
        (xn * yn) * ((sxd * syd) * k),
        (sxn * xd + xn * sxd) * (syn * yd + yn * syd),
    );
    vstd::arithmetic::mul::lemma_mul_is_distributive_add(
        k - 1,
        (sxn * xd) * (syn * yd),
        (sxn * xd) * (yn * syd),
    );
    vstd::arithmetic::mul::lemma_mul_is_distributive_add(
        k - 1,
        (sxn * xd) * (syn * yd) + (sxn * xd) * (yn * syd),
        (xn * sxd) * (syn * yd),
    );
    vstd::arithmetic::mul::lemma_mul_is_distributive_add(
        k - 1,
        (sxn * xd) * (syn * yd) + (sxn * xd) * (yn * syd) + (xn * sxd) * (syn * yd),
        (xn * sxd) * (yn * syd),
    );
}

/// One step of the covariance recurrence, in closed form: adding the cross
/// increment `(x - mean_x before) * (y - mean_y after)` to the cross
/// deviation sum of the first `k - 1` pairs gives the cross deviation sum
/// after `(x, y)` joins, where `sx`, `sy` and `q` are the running sums of
/// the first coordinates, the second coordinates, and their products.
pub proof fn lemma_welford_cross(x: Ratio, y: Ratio, sx: Ratio, sy: Ratio, q: Ratio, k: int)
    requires
        rwf(x),
        rwf(y),
        rwf(sx),
        rwf(sy),
        rwf(q),
        2 <= k,
    ensures
        rat_eq(
            add_r(
                sub_r(q, div_r(mul_r(sx, sy), int_r(k - 1))),
                mul_r(
                    sub_r(x, div_r(sx, int_r(k - 1))),
                    sub_r(y, div_r(add_r(sy, y), int_r(k))),
                ),
            ),
            sub_r(
                add_r(q, mul_r(x, y)),
                div_r(mul_r(add_r(sx, x), add_r(sy, y)), int_r(k)),
            ),
        ),
{
    let sxn = sx.n;
    let sxd = sx.d;
    let syn = sy.n;
    let syd = sy.d;
    let xn = x.n;
    let xd = x.d;
    let yn = y.n;
    let yd = y.d;
    let qn = q.n;
    let qd = q.d;
    let wx = xn * (sxd * (k - 1)) - (sxn * 1) * xd;
    let wy = yn * (syd * (k - 1)) - (syn * 1) * yd;
    let csdn = qn * ((sxd * syd) * (k - 1)) - ((sxn * syn) * 1) * qd;
    let csdd = qd * ((sxd * syd) * (k - 1));
    let q1n = qn * (xd * yd) + (xn * yn) * qd;
    let aan = (sxn * xd + xn * sxd) * (syn * yd + yn * syd);
    let p = q1n * ((sxd * syd) * k) - aan * qd;
    let g = (sxd * syd) * (yd * (k - 1));
    let pc = csdn * ((xd * yd) * k) + qd * (wx * wy);
    let br = qd * ((xd * yd) * ((sxd * syd) * k));
    let bl = csdd * ((xd * yd) * k);
    // the second deviation's numerator is its core, scaled by yd
    lemma_t2n(syn, syd, yn, yd, k);
    assert((xn * (sxd * (k - 1)) - (sxn * 1) * xd) * (yn * ((syd * yd) * k) - ((syn * yd + yn
        * syd) * 1) * yd) == wx * (yd * wy));
    // left-hand numerator factors through g
    assert((wx * (yd * wy)) * csdd == g * (qd * (wx * wy))) by (nonlinear_arith)
        requires
            csdd == qd * ((sxd * syd) * (k - 1)),
            g == (sxd * syd) * (yd * (k - 1)),
    {
    }
    assert((xd * (sxd * (k - 1))) * (yd * ((syd * yd) * k)) == g * ((xd * yd) * k))
        by (nonlinear_arith)
        requires
            g == (sxd * syd) * (yd * (k - 1)),
    {
    }
    lemma_regroup_a(csdn, g, (xd * yd) * k);
    vstd::arithmetic::mul::lemma_mul_is_distributive_add(
        g,
        csdn * ((xd * yd) * k),
        qd * (wx * wy),
    );
    assert(csdn * ((xd * (sxd * (k - 1))) * (yd * ((syd * yd) * k))) + (wx * (yd * wy)) * csdd == g
        * pc);
    // right-hand numerator factors through xd * yd
    assert(((sxd * xd) * (syd * yd)) * k == (xd * yd) * ((sxd * syd) * k)) by (nonlinear_arith) {}
    lemma_regroup_a(q1n, xd * yd, (sxd * syd) * k);
    lemma_regroup_b(aan, qd, xd * yd);
    vstd::arithmetic::mul::lemma_mul_is_distributive_sub(
        xd * yd,
        q1n * ((sxd * syd) * k),
        aan * qd,
    );
    assert(q1n * (((sxd * xd) * (syd * yd)) * k) - (aan * 1) * (qd * (xd * yd)) == (xd * yd) * p);
    // both denominators factor the same way
    assert((sxd * xd) * (syd * yd) == (xd * yd) * (sxd * syd)) by (nonlinear_arith) {}
    lemma_regroup_f(qd, xd * yd, sxd * syd, k);
    assert((qd * (xd * yd)) * (((sxd * xd) * (syd * yd)) * k) == (xd * yd) * br);
    lemma_regroup_a(csdd, g, (xd * yd) * k);
    assert(csdd * ((xd * (sxd * (k - 1))) * (yd * ((syd * yd) * k))) == g * bl);
    // the algebraic core, split into its qn and qd parts
    lemma_qcore2(qn, sxd * syd, xd * yd, k);
    assert((qn * ((sxd * syd) * (k - 1))) * ((xd * yd) * k) == (k - 1) * ((qn * (xd * yd)) * ((sxd
        * syd) * k)));
    lemma_cross_core(sxn, sxd, syn, syd, xn, xd, yn, yd, k);
    assert(wx * wy - (sxn * syn) * ((xd * yd) * k) == (k - 1) * ((xn * yn) * ((sxd * syd) * k)
        - aan));
    vstd::arithmetic::mul::lemma_mul_is_distributive_sub(
        qd,
        wx * wy,
        (sxn * syn) * ((xd * yd) * k),
    );
    vstd::arithmetic::mul::lemma_mul_is_distributive_sub(
        qd,
        (xn * yn) * ((sxd * syd) * k),
        aan,
    );
    lemma_regroup_e(qd, sxn * syn, (xd * yd) * k);
    lemma_regroup_e(qd, xn * yn, (sxd * syd) * k);
    lemma_regroup_a(qd, k - 1, (xn * yn) * ((sxd * syd) * k) - aan);
    assert(qd * aan == aan * qd) by (nonlinear_arith) {}
    assert(qd * (wx * wy) - (((sxn * syn) * 1) * qd) * ((xd * yd) * k) == (k - 1) * (((xn * yn)
        * qd) * ((sxd * syd) * k) - aan * qd));
    vstd::arithmetic::mul::lemma_mul_is_distributive_sub_other_way(
        (xd * yd) * k,
        qn * ((sxd * syd) * (k - 1)),
        ((sxn * syn) * 1) * qd,
    );
    vstd::arithmetic::mul::lemma_mul_is_distributive_add(qn * (xd * yd), (sxd * syd) * k, 0);
    assert(pc == (k - 1) * ((qn * (xd * yd)) * ((sxd * syd) * k)) + (k - 1) * (((xn * yn) * qd)
        * ((sxd * syd) * k) - aan * qd));
    vstd::arithmetic::mul::lemma_mul_is_distributive_add(
        k - 1,
        (qn * (xd * yd)) * ((sxd * syd) * k),
        ((xn * yn) * qd) * ((sxd * syd) * k) - aan * qd,
    );
    vstd::arithmetic::mul::lemma_mul_is_distributive_add_other_way(
        (sxd * syd) * k,
        qn * (xd * yd),
        (xn * yn) * qd,
    );
    assert(pc == (k - 1) * p);
    lemma_denoms2(qd, sxd * syd, xd * yd, k);
    assert(bl == (k - 1) * br);
    assert(pc * br == p * bl) by (nonlinear_arith)
        requires
            pc == (k - 1) * p,
            bl == (k - 1) * br,
    {
    }
    lemma_regroup_c(g, pc, xd * yd, br, p, bl);
}
/// Division of well-formed rationals is well-formed, whatever the divisor.
pub proof fn lemma_div_wf(a: Ratio, b: Ratio)
    requires
        rwf(a),
        rwf(b),
    ensures
        rwf(div_r(a, b)),
{
    if b.n > 0 {
        assert(1 <= a.d * b.n) by (nonlinear_arith)
            requires
                1 <= a.d,
                1 <= b.n,
        {
        }
    } else if b.n < 0 {
        assert(1 <= -(a.d * b.n)) by (nonlinear_arith)
            requires
                1 <= a.d,
                b.n <= -1,
        {
        }
    }
}
/// Evaluates one normalization from its divisibility witnesses: when `g` is
/// the greatest common divisor and the cofactors are given, `norm2` returns
/// exactly those cofactors.
pub proof fn lemma_norm_eval(n: int, d: int, g: int, rn: int, rd: int)
    requires
        0 <= n,
        1 <= d,
        1 <= g,
        gcd(n as nat, d as nat) == g,
        n == rn * g,
        d == rd * g,
        0 <= rn,
        1 <= rd,
    ensures
        norm2(n, d) == (Ratio { n: rn, d: rd }),
{
    assert(vstd::math::abs(n) == n as nat);
    vstd::arithmetic::div_mod::lemma_div_multiples_vanish(rn, g);
    vstd::arithmetic::div_mod::lemma_div_multiples_vanish(rd, g);
    assert(g * rn == n && g * rd == d) by (nonlinear_arith)
        requires
            n == rn * g,
            d == rd * g,
    {
    }
}
/// The sum of two non-negative rationals is non-negative.
pub proof fn lemma_add_nonneg(a: Ratio, b: Ratio)
    requires
        rwf(a),
        rwf(b),
        rat_le(int_r(0), a),
        rat_le(int_r(0), b),
    ensures
        rat_le(int_r(0), add_r(a, b)),
{
    assert(0 * (a.d * b.d) <= (a.n * b.d + b.n * a.d) * 1) by (nonlinear_arith)
        requires
            0 * a.d <= a.n * 1,
            0 * b.d <= b.n * 1,
            1 <= a.d,
            1 <= b.d,
    {
    }
}

/// The Welford increment is a scaled square, hence non-negative.
proof fn lemma_inc_nonneg(x: Ratio, s: Ratio, k: int)
    requires
        rwf(x),
        rwf(s),
        2 <= k,
    ensures
        rat_le(
            int_r(0),
            mul_r(sub_r(x, div_r(s, int_r(k - 1))), sub_r(x, div_r(add_r(s, x), int_r(k)))),
        ),
{
    lemma_t2n(s.n, s.d, x.n, x.d, k);
    let w = x.n * (s.d * (k - 1)) - (s.n * 1) * x.d;
    assert(0 * (mul_r(
        sub_r(x, div_r(s, int_r(k - 1))),
        sub_r(x, div_r(add_r(s, x), int_r(k))),
    ).d) <= (w * (x.d * w)) * 1) by (nonlinear_arith)
        requires
            1 <= x.d,
    {
    }
}

/// The sum of squared deviations of any stream is non-negative.
pub proof fn lemma_ssd_nonneg(h: Seq<Ratio>)
    requires
        all_wf(h),
    ensures
        rat_le(int_r(0), ssd_of(h)),
    decreases h.len(),
{
    lemma_sum_wf(h);
    if h.len() == 0 {
    } else if h.len() == 1 {
        lemma_ssd_single(h);
        lemma_rwf2(sum_of(h), sum_of(h));
        lemma_div_v(mul_r(sum_of(h), sum_of(h)), int_r(1));
        lemma_rwf2(sumsq_of(h), div_r(mul_r(sum_of(h), sum_of(h)), int_r(1)));
        assert(rat_le(int_r(0), ssd_of(h)));
    } else {
        let dl = h.drop_last();
        let x = h.last();
        assert(all_wf(dl));
        lemma_ssd_nonneg(dl);
        assert(h =~= dl.push(x));
        lemma_ssd_push(dl, x);
        let inc = mul_r(
            sub_r(x, div_r(sum_of(dl), int_r(dl.len() as int))),
            sub_r(x, div_r(sum_of(dl.push(x)), int_r(dl.len() + 1 as int))),
        );
        lemma_sum_wf(dl);
        lemma_inc_nonneg(x, sum_of(dl), dl.len() + 1 as int);
        lemma_rwf2(sum_of(dl), sum_of(dl));
        lemma_div_v(mul_r(sum_of(dl), sum_of(dl)), int_r(dl.len() as int));
        lemma_rwf2(sumsq_of(dl), div_r(mul_r(sum_of(dl), sum_of(dl)), int_r(dl.len() as int)));
        lemma_div_v(sum_of(dl), int_r(dl.len() as int));
        lemma_rwf2(x, div_r(sum_of(dl), int_r(dl.len() as int)));
        lemma_sum_push(dl, x);
        lemma_sum_wf(h);
        lemma_div_v(sum_of(h), int_r(dl.len() + 1 as int));
        lemma_rwf2(x, div_r(sum_of(h), int_r(dl.len() + 1 as int)));
        lemma_rwf2(
            sub_r(x, div_r(sum_of(dl), int_r(dl.len() as int))),
            sub_r(x, div_r(sum_of(h), int_r(dl.len() + 1 as int))),
        );
        lemma_add_nonneg(ssd_of(dl), inc);
        lemma_rwf2(ssd_of(dl), inc);
        lemma_rwf2(sum_of(h), sum_of(h));
        lemma_div_v(mul_r(sum_of(h), sum_of(h)), int_r(h.len() as int));
        lemma_rwf2(sumsq_of(h), div_r(mul_r(sum_of(h), sum_of(h)), int_r(h.len() as int)));
        lemma_le_congr(int_r(0), add_r(ssd_of(dl), inc), int_r(0), ssd_of(h));
    }
}

} // verus!
