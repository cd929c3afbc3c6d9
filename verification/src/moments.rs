//! Welford-style central-moment state up to order four.

use vstd::prelude::*;

verus! {

use crate::count::Count;
use crate::rat::Rat;
use crate::ratio::{add_fits, add_r, add_v, div_fits, div_r, div_v, int_r, lemma_add_congr,
    lemma_div_congr, lemma_div_v, lemma_mul_congr, lemma_sub_congr, mul_fits, mul_r, mul_v,
    rat_eq, rwf, sub_fits, sub_r, sub_v, sum_of, Ratio};
use crate::stats::Univariate;

/// Running power sums of deviations from the mean, maintained in the exact
/// order Welford's recurrences require: count, then delta, then `m1`, then
/// the running mean of deviations, then `m4`, `m3`, `m2` (each higher-order
/// update reads the not-yet-updated lower-order sums).  Every method's
/// contract gives the exact rational it stores.
pub struct CentralMoments {
    pub delta: Rat,
    pub sum_delta: Rat,
    pub m1: Rat,
    pub m2: Rat,
    pub m3: Rat,
    pub m4: Rat,
    pub count: Count,
}

impl CentralMoments {
    /// A fresh accumulator with every sum at zero.
    pub fn new() -> (r: CentralMoments)
        ensures
            r.count.inv(),
            r.count.hist@ == Seq::<Ratio>::empty(),
            r.delta@ == int_r(0),
            r.sum_delta@ == int_r(0),
            r.m1@ == int_r(0),
            r.m2@ == int_r(0),
            r.m3@ == int_r(0),
            r.m4@ == int_r(0),
    {
        CentralMoments {
            delta: Rat::zero(),
            sum_delta: Rat::zero(),
            m1: Rat::zero(),
            m2: Rat::zero(),
            m3: Rat::zero(),
            m4: Rat::zero(),
            count: Count::new(),
        }
    }

    /// The current count as an exact rational.
    fn count_rat(&self) -> (r: Rat)
        requires
            self.count.inv(),
        ensures
            r@ == int_r(self.count.hist@.len() as int),
    {
        Rat::from_i64(self.count.total() as i64)
    }

    /// Sets `delta` to `(x - sum_delta) / n`.
    pub fn update_delta(&mut self, x: &Rat)
        requires
            old(self).count.inv(),
            old(self).count.hist@.len() >= 1,
            sub_fits(x@, old(self).sum_delta@),
            div_fits(
                sub_v(x@, old(self).sum_delta@),
                int_r(old(self).count.hist@.len() as int),
            ),
        ensures
            final(self).delta@ == div_v(
                sub_v(x@, old(self).sum_delta@),
                int_r(old(self).count.hist@.len() as int),
            ),
            *final(self) == (CentralMoments { delta: final(self).delta, ..*old(self) }),
    {
        let n = self.count_rat();
        let t = x.sub(&self.sum_delta);
        self.delta = t.div(&n);
    }

    /// Adds `delta` into the running mean of deviations.
    pub fn update_sum_delta(&mut self)
        requires
            add_fits(old(self).sum_delta@, old(self).delta@),
        ensures
            final(self).sum_delta@ == add_v(old(self).sum_delta@, old(self).delta@),
            *final(self) == (CentralMoments { sum_delta: final(self).sum_delta, ..*old(self) }),
    {
        let t = self.sum_delta.add(&self.delta);
        self.sum_delta = t;
    }

    /// Sets `m1` to `(x - sum_delta) * delta * (n - 1)`.
    pub fn update_m1(&mut self, x: &Rat)
        requires
            old(self).count.inv(),
            old(self).count.hist@.len() >= 1,
            sub_fits(x@, old(self).sum_delta@),
            mul_fits(sub_v(x@, old(self).sum_delta@), old(self).delta@),
            mul_fits(
                mul_v(sub_v(x@, old(self).sum_delta@), old(self).delta@),
                int_r(old(self).count.hist@.len() - 1),
            ),
        ensures
            final(self).m1@ == mul_v(
                mul_v(sub_v(x@, old(self).sum_delta@), old(self).delta@),
                int_r(old(self).count.hist@.len() - 1),
            ),
            *final(self) == (CentralMoments { m1: final(self).m1, ..*old(self) }),
    {
        let n = self.count.total();
        let nm1 = Rat::from_i64((n - 1) as i64);
        let t = x.sub(&self.sum_delta);
        let u = t.mul(&self.delta);
        self.m1 = u.mul(&nm1);
    }

    /// Adds `m1` into the second-order sum.
    pub fn update_m2(&mut self)
        requires
            add_fits(old(self).m2@, old(self).m1@),
        ensures
            final(self).m2@ == add_v(old(self).m2@, old(self).m1@),
            *final(self) == (CentralMoments { m2: final(self).m2, ..*old(self) }),
    {
        let t = self.m2.add(&self.m1);
        self.m2 = t;
    }

    /// Adds `m1 * delta * (n - 2) - 3 * delta * m2` into the third-order
    /// sum, reading the not-yet-updated `m2`.
    pub fn update_m3(&mut self)
        requires
            old(self).count.inv(),
            old(self).count.hist@.len() >= 1,
            mul_fits(old(self).m1@, old(self).delta@),
            mul_fits(
                mul_v(old(self).m1@, old(self).delta@),
                int_r(old(self).count.hist@.len() as int - 2),
            ),
            mul_fits(int_r(3), old(self).delta@),
            mul_fits(mul_v(int_r(3), old(self).delta@), old(self).m2@),
            sub_fits(
                mul_v(
                    mul_v(old(self).m1@, old(self).delta@),
                    int_r(old(self).count.hist@.len() as int - 2),
                ),
                mul_v(mul_v(int_r(3), old(self).delta@), old(self).m2@),
            ),
            add_fits(
                old(self).m3@,
                sub_v(
                    mul_v(
                        mul_v(old(self).m1@, old(self).delta@),
                        int_r(old(self).count.hist@.len() as int - 2),
                    ),
                    mul_v(mul_v(int_r(3), old(self).delta@), old(self).m2@),
                ),
            ),
        ensures
            final(self).m3@ == add_v(
                old(self).m3@,
                sub_v(
                    mul_v(
                        mul_v(old(self).m1@, old(self).delta@),
                        int_r(old(self).count.hist@.len() as int - 2),
                    ),
                    mul_v(mul_v(int_r(3), old(self).delta@), old(self).m2@),
                ),
            ),
            *final(self) == (CentralMoments { m3: final(self).m3, ..*old(self) }),
    {
        let n = self.count.total();
        let nm2 = Rat::from_i64(n as i64 - 2);
        let a = self.m1.mul(&self.delta).mul(&nm2);
        let b = Rat::from_int(3).mul(&self.delta).mul(&self.m2);
        let t = self.m3.add(&a.sub(&b));
        self.m3 = t;
    }

    /// Adds `m1 * delta^2 * (n^2 - 3n + 3) + 6 * delta^2 * m2 - 4 * delta *
    /// m3` into the fourth-order sum, reading the not-yet-updated `m2` and
    /// `m3`.
    pub fn update_m4(&mut self)
        requires
            old(self).count.inv(),
            old(self).count.hist@.len() >= 1,
            mul_fits(old(self).delta@, old(self).delta@),
            m4_fits(
                old(self).m1@,
                mul_v(old(self).delta@, old(self).delta@),
                old(self).delta@,
                old(self).m2@,
                old(self).m3@,
                old(self).m4@,
                old(self).count.hist@.len() as int,
            ),
        ensures
            final(self).m4@ == add_v(
                old(self).m4@,
                m4_increment(
                    old(self).m1@,
                    mul_v(old(self).delta@, old(self).delta@),
                    old(self).delta@,
                    old(self).m2@,
                    old(self).m3@,
                    old(self).count.hist@.len() as int,
                ),
            ),
            *final(self) == (CentralMoments { m4: final(self).m4, ..*old(self) }),
    {
        let n = self.count.total();
        let nr = Rat::from_i64(n as i64);
        let delta_square = self.delta.mul(&self.delta);
        let poly = nr.mul(&nr).sub(&Rat::from_int(3).mul(&nr)).add(&Rat::from_int(3));
        let a = self.m1.mul(&delta_square).mul(&poly);
        let b = Rat::from_int(6).mul(&delta_square).mul(&self.m2);
        let c = Rat::from_int(4).mul(&self.delta).mul(&self.m3);
        let t = self.m4.add(&a.add(&b).sub(&c));
        self.m4 = t;
    }
}

/// The count polynomial `n^2 - 3n + 3` of the fourth-moment update.
pub open spec fn m4_poly(n: int) -> Ratio {
    add_v(sub_v(mul_v(int_r(n), int_r(n)), mul_v(int_r(3), int_r(n))), int_r(3))
}

/// The exact increment the fourth-moment update adds.
pub open spec fn m4_increment(m1: Ratio, d2: Ratio, d: Ratio, m2: Ratio, m3: Ratio, n: int) -> Ratio {
    sub_v(
        add_v(
            mul_v(mul_v(m1, d2), m4_poly(n)),
            mul_v(mul_v(int_r(6), d2), m2),
        ),
        mul_v(mul_v(int_r(4), d), m3),
    )
}

/// Every step of the fourth-moment update stays representable.
pub open spec fn m4_fits(m1: Ratio, d2: Ratio, d: Ratio, m2: Ratio, m3: Ratio, m4: Ratio, n: int) -> bool {
    &&& mul_fits(int_r(n), int_r(n))
    &&& mul_fits(int_r(3), int_r(n))
    &&& sub_fits(mul_v(int_r(n), int_r(n)), mul_v(int_r(3), int_r(n)))
    &&& add_fits(sub_v(mul_v(int_r(n), int_r(n)), mul_v(int_r(3), int_r(n))), int_r(3))
    &&& mul_fits(m1, d2)
    &&& mul_fits(mul_v(m1, d2), m4_poly(n))
    &&& mul_fits(int_r(6), d2)
    &&& mul_fits(mul_v(int_r(6), d2), m2)
    &&& mul_fits(int_r(4), d)
    &&& mul_fits(mul_v(int_r(4), d), m3)
    &&& add_fits(mul_v(mul_v(m1, d2), m4_poly(n)), mul_v(mul_v(int_r(6), d2), m2))
    &&& sub_fits(
        add_v(mul_v(mul_v(m1, d2), m4_poly(n)), mul_v(mul_v(int_r(6), d2), m2)),
        mul_v(mul_v(int_r(4), d), m3),
    )
    &&& add_fits(
        m4,
        sub_v(
            add_v(mul_v(mul_v(m1, d2), m4_poly(n)), mul_v(mul_v(int_r(6), d2), m2)),
            mul_v(mul_v(int_r(4), d), m3),
        ),
    )
}
/// The delta of one driver step.
pub open spec fn cm_delta(sd: Ratio, x: Ratio, n: int) -> Ratio {
    div_v(sub_v(x, sd), int_r(n))
}

/// The first-order term of one driver step.
pub open spec fn cm_m1(sd: Ratio, x: Ratio, n: int) -> Ratio {
    mul_v(mul_v(sub_v(x, sd), cm_delta(sd, x, n)), int_r(n - 1))
}

/// The third-moment increment of one driver step.
pub open spec fn cm_m3_inc(m1: Ratio, d: Ratio, m2: Ratio, n: int) -> Ratio {
    sub_v(mul_v(mul_v(m1, d), int_r(n - 2)), mul_v(mul_v(int_r(3), d), m2))
}

/// Every step of one whole driver update stays representable.
pub open spec fn cm_fits(c: CentralMoments, x: Ratio) -> bool {
    let n = c.count.hist@.len() + 1 as int;
    let d = cm_delta(c.sum_delta@, x, n);
    let m1 = cm_m1(c.sum_delta@, x, n);
    &&& c.count.hist@.len() < i64::MAX as u64
    &&& sub_fits(x, c.sum_delta@)
    &&& div_fits(sub_v(x, c.sum_delta@), int_r(n))
    &&& mul_fits(sub_v(x, c.sum_delta@), d)
    &&& mul_fits(mul_v(sub_v(x, c.sum_delta@), d), int_r(n - 1))
    &&& add_fits(c.sum_delta@, d)
    &&& mul_fits(d, d)
    &&& m4_fits(m1, mul_v(d, d), d, c.m2@, c.m3@, c.m4@, n)
    &&& mul_fits(m1, d)
    &&& mul_fits(mul_v(m1, d), int_r(n - 2))
    &&& mul_fits(int_r(3), d)
    &&& mul_fits(mul_v(int_r(3), d), c.m2@)
    &&& sub_fits(mul_v(mul_v(m1, d), int_r(n - 2)), mul_v(mul_v(int_r(3), d), c.m2@))
    &&& add_fits(c.m3@, cm_m3_inc(m1, d, c.m2@, n))
    &&& add_fits(c.m2@, m1)
}

/// The exact transition of one whole driver update through the moment
/// state, in the prescribed order.
pub open spec fn cm_stepped(pre: CentralMoments, post: CentralMoments, x: Ratio) -> bool {
    &&& post.count.hist@ == pre.count.hist@.push(x)
    &&& post.delta@ == cm_delta(pre.sum_delta@, x, pre.count.hist@.len() + 1 as int)
    &&& post.m1@ == cm_m1(pre.sum_delta@, x, pre.count.hist@.len() + 1 as int)
    &&& post.sum_delta@ == add_v(pre.sum_delta@, post.delta@)
    &&& post.m4@ == add_v(
        pre.m4@,
        m4_increment(
            post.m1@,
            mul_v(post.delta@, post.delta@),
            post.delta@,
            pre.m2@,
            pre.m3@,
            pre.count.hist@.len() + 1 as int,
        ),
    )
    &&& post.m3@ == add_v(
        pre.m3@,
        cm_m3_inc(post.m1@, post.delta@, pre.m2@, pre.count.hist@.len() + 1 as int),
    )
    &&& post.m2@ == add_v(pre.m2@, post.m1@)
}

impl CentralMoments {
    /// Incorporates one observation by one whole Welford step, in the
    /// prescribed order: count, delta, first-order term, running mean of
    /// deviations, then the fourth, third and second power sums (each
    /// higher-order update reading the not-yet-updated lower-order sums).
    pub fn update(&mut self, x: &Rat)
        requires
            old(self).count.inv(),
            cm_fits(*old(self), x@),
        ensures
            final(self).count.inv(),
            final(self).count.hist@ == old(self).count.hist@.push(x@),
            final(self).delta@ == cm_delta(
                old(self).sum_delta@,
                x@,
                old(self).count.hist@.len() + 1 as int,
            ),
            final(self).m1@ == cm_m1(
                old(self).sum_delta@,
                x@,
                old(self).count.hist@.len() + 1 as int,
            ),
            final(self).sum_delta@ == add_v(old(self).sum_delta@, final(self).delta@),
            final(self).m4@ == add_v(
                old(self).m4@,
                m4_increment(
                    final(self).m1@,
                    mul_v(final(self).delta@, final(self).delta@),
                    final(self).delta@,
                    old(self).m2@,
                    old(self).m3@,
                    old(self).count.hist@.len() + 1 as int,
                ),
            ),
            final(self).m3@ == add_v(
                old(self).m3@,
                cm_m3_inc(
                    final(self).m1@,
                    final(self).delta@,
                    old(self).m2@,
                    old(self).count.hist@.len() + 1 as int,
                ),
            ),
            final(self).m2@ == add_v(old(self).m2@, final(self).m1@),
            cm_stepped(*old(self), *final(self), x@),
    {
        self.count.update(x);
        self.update_delta(x);
        self.update_m1(x);
        self.update_sum_delta();
        self.update_m4();
        self.update_m3();
        self.update_m2();
    }
}
/// The first-order term is the squared deviation, spread over one step:
/// `t * (t/k) * (k-1)` equals `t * (t - t/k)`.
proof fn lemma_m1_square(t: Ratio, k: int)
    requires
        rwf(t),
        2 <= k,
    ensures
        rat_eq(
            mul_r(mul_r(t, div_r(t, int_r(k))), int_r(k - 1)),
            mul_r(t, sub_r(t, div_r(t, int_r(k)))),
        ),
{
    assert(((t.n * (t.n * 1)) * (k - 1)) * (t.d * (t.d * (t.d * k))) == (t.n * (t.n * (t.d * k) - (
    t.n * 1) * t.d)) * ((t.d * (t.d * k)) * 1)) by (nonlinear_arith) {}
}

/// Subtracting a term and then another equals subtracting their sum.
proof fn lemma_sub_twice(x: Ratio, m: Ratio, u: Ratio)
    requires
        rwf(x),
        rwf(m),
        rwf(u),
    ensures
        rat_eq(sub_r(sub_r(x, m), u), sub_r(x, add_r(m, u))),
{
    assert(((x.n * m.d - m.n * x.d) * u.d - u.n * (x.d * m.d)) * (x.d * (m.d * u.d)) == (x.n * (m.d
        * u.d) - (m.n * u.d + u.n * m.d) * x.d) * ((x.d * m.d) * u.d)) by (nonlinear_arith) {}
}

/// The second-order sum of the driver tracks the stream: when the running
/// mean of deviations and `m2` agree with the history, one driver step keeps
/// them agreeing — `m2` is the unnormalized sum of squared deviations at
/// every count.
pub proof fn lemma_moments_track(pre: CentralMoments, post: CentralMoments, x: Ratio, h: Seq<Ratio>)
    requires
        cm_stepped(pre, post, x),
        pre.count.hist@ == h,
        crate::ratio::all_wf(h),
        rwf(x),
        rwf(pre.sum_delta@),
        rwf(pre.m2@),
        h.len() == 0 ==> rat_eq(pre.sum_delta@, int_r(0)) && rat_eq(pre.m2@, int_r(0)),
        h.len() > 0 ==> rat_eq(
            pre.sum_delta@,
            div_r(sum_of(h), int_r(h.len() as int)),
        ) && rat_eq(pre.m2@, crate::ratio::ssd_of(h)),
    ensures
        rat_eq(
            post.sum_delta@,
            div_r(sum_of(h.push(x)), int_r(h.len() + 1 as int)),
        ),
        rat_eq(post.m2@, crate::ratio::ssd_of(h.push(x))),
{
    let k = h.len() + 1 as int;
    let kk = int_r(k);
    let m = pre.sum_delta@;
    let h1 = h.push(x);
    let t = sub_r(x, m);
    crate::ratio::lemma_sum_push(h, x);
    crate::ratio::lemma_sum_wf(h);
    crate::ratio::lemma_sum_wf(h1);
    // the stored delta is the textbook deviation over the new count
    crate::ratio::lemma_sub_v(x, m);
    lemma_div_v(sub_v(x, m), kk);
    lemma_div_congr(sub_v(x, m), kk, t, kk);
    crate::ratio::lemma_div_wf(t, kk);
    crate::ratio::lemma_eq_trans(post.delta@, div_r(sub_v(x, m), kk), div_r(t, kk));
    // the running mean of deviations advances exactly as a mean does
    crate::ratio::lemma_add_v(m, post.delta@);
    lemma_add_congr(m, post.delta@, m, div_r(t, kk));
    crate::ratio::lemma_rwf2(m, div_r(t, kk));
    crate::ratio::lemma_eq_trans(
        post.sum_delta@,
        add_r(m, post.delta@),
        add_r(m, div_r(t, kk)),
    );
    if h.len() == 0 {
        crate::ratio::lemma_mean_first(m, x);
        crate::ratio::lemma_rwf2(int_r(0), x);
        lemma_div_v(add_r(int_r(0), x), kk);
        crate::ratio::lemma_eq_trans(
            post.sum_delta@,
            add_r(m, div_r(t, kk)),
            div_r(add_r(int_r(0), x), kk),
        );
        assert(sum_of(h1) == add_r(int_r(0), x));
    } else {
        crate::ratio::lemma_mean_step(m, x, sum_of(h), k);
        crate::ratio::lemma_rwf2(sum_of(h), x);
        lemma_div_v(add_r(sum_of(h), x), kk);
        crate::ratio::lemma_eq_trans(
            post.sum_delta@,
            add_r(m, div_r(t, kk)),
            div_r(add_r(sum_of(h), x), kk),
        );
    }
    // the first-order term is the Welford increment
    crate::ratio::lemma_mul_v(sub_v(x, m), post.delta@);
    lemma_mul_congr(sub_v(x, m), post.delta@, t, div_r(t, kk));
    crate::ratio::lemma_rwf2(t, div_r(t, kk));
    crate::ratio::lemma_eq_trans(
        mul_v(sub_v(x, m), post.delta@),
        mul_r(sub_v(x, m), post.delta@),
        mul_r(t, div_r(t, kk)),
    );
    let k1 = int_r(k - 1);
    crate::ratio::lemma_mul_v(mul_v(sub_v(x, m), post.delta@), k1);
    lemma_mul_congr(mul_v(sub_v(x, m), post.delta@), k1, mul_r(t, div_r(t, kk)), k1);
    crate::ratio::lemma_rwf2(mul_r(t, div_r(t, kk)), k1);
    crate::ratio::lemma_eq_trans(
        post.m1@,
        mul_r(mul_v(sub_v(x, m), post.delta@), k1),
        mul_r(mul_r(t, div_r(t, kk)), k1),
    );
    if h.len() == 0 {
        // a single observation contributes nothing to the deviation sum
        assert(rat_eq(mul_r(mul_r(t, div_r(t, kk)), k1), int_r(0))) by (nonlinear_arith)
            requires
                k1 == int_r(0),
        {
        }
        crate::ratio::lemma_rwf2(mul_r(t, div_r(t, kk)), k1);
        crate::ratio::lemma_eq_trans(post.m1@, mul_r(mul_r(t, div_r(t, kk)), k1), int_r(0));
        crate::ratio::lemma_add_v(pre.m2@, post.m1@);
        crate::ratio::lemma_add_zero(pre.m2@, post.m1@);
        crate::ratio::lemma_rwf2(pre.m2@, post.m1@);
        crate::ratio::lemma_eq_trans(post.m2@, add_r(pre.m2@, post.m1@), int_r(0));
        crate::ratio::lemma_ssd_single(h1);
        crate::ratio::lemma_rwf2(sum_of(h1), sum_of(h1));
        lemma_div_v(mul_r(sum_of(h1), sum_of(h1)), int_r(1));
        crate::ratio::lemma_rwf2(
            crate::ratio::sumsq_of(h1),
            div_r(mul_r(sum_of(h1), sum_of(h1)), int_r(1)),
        );
        crate::ratio::lemma_eq_trans(post.m2@, int_r(0), crate::ratio::ssd_of(h1));
    } else {
        lemma_m1_square(t, k);
        crate::ratio::lemma_rwf2(t, sub_r(t, div_r(t, kk)));
        crate::ratio::lemma_eq_trans(
            post.m1@,
            mul_r(mul_r(t, div_r(t, kk)), k1),
            mul_r(t, sub_r(t, div_r(t, kk))),
        );
        // rewrite both factors to the canonical deviations
        let mo_c = div_r(sum_of(h), k1);
        let mn_c = div_r(sum_of(h1), kk);
        lemma_div_v(sum_of(h), k1);
        lemma_div_v(sum_of(h1), kk);
        lemma_sub_congr(x, m, x, mo_c);
        crate::ratio::lemma_rwf2(x, mo_c);
        // the subtraction of the step from the deviation is the deviation
        // from the advanced mean
        lemma_sub_twice(x, m, div_r(t, kk));
        crate::ratio::lemma_rwf2(m, div_r(t, kk));
        crate::ratio::lemma_rwf2(sub_r(x, m), div_r(t, kk));
        lemma_sub_congr(x, add_r(m, div_r(t, kk)), x, mn_c);
        crate::ratio::lemma_rwf2(x, add_r(m, div_r(t, kk)));
        crate::ratio::lemma_rwf2(x, mn_c);
        crate::ratio::lemma_eq_trans(
            sub_r(t, div_r(t, kk)),
            sub_r(x, add_r(m, div_r(t, kk))),
            sub_r(x, mn_c),
        );
        lemma_mul_congr(t, sub_r(t, div_r(t, kk)), sub_r(x, mo_c), sub_r(x, mn_c));
        crate::ratio::lemma_rwf2(sub_r(x, mo_c), sub_r(x, mn_c));
        crate::ratio::lemma_eq_trans(
            post.m1@,
            mul_r(t, sub_r(t, div_r(t, kk))),
            mul_r(sub_r(x, mo_c), sub_r(x, mn_c)),
        );
        // and fold into the deviation sum
        let inc = mul_r(sub_r(x, mo_c), sub_r(x, mn_c));
        crate::ratio::lemma_add_v(pre.m2@, post.m1@);
        crate::ratio::lemma_rwf2(sum_of(h), sum_of(h));
        lemma_div_v(mul_r(sum_of(h), sum_of(h)), int_r(h.len() as int));
        crate::ratio::lemma_rwf2(
            crate::ratio::sumsq_of(h),
            div_r(mul_r(sum_of(h), sum_of(h)), int_r(h.len() as int)),
        );
        lemma_add_congr(pre.m2@, post.m1@, crate::ratio::ssd_of(h), inc);
        crate::ratio::lemma_rwf2(crate::ratio::ssd_of(h), inc);
        crate::ratio::lemma_eq_trans(
            post.m2@,
            add_r(pre.m2@, post.m1@),
            add_r(crate::ratio::ssd_of(h), inc),
        );
        crate::ratio::lemma_ssd_push(h, x);
        crate::ratio::lemma_rwf2(sum_of(h1), sum_of(h1));
        lemma_div_v(mul_r(sum_of(h1), sum_of(h1)), kk);
        crate::ratio::lemma_rwf2(
            crate::ratio::sumsq_of(h1),
            div_r(mul_r(sum_of(h1), sum_of(h1)), kk),
        );
        crate::ratio::lemma_eq_trans(
            post.m2@,
            add_r(crate::ratio::ssd_of(h), inc),
            crate::ratio::ssd_of(h1),
        );
    }
}

} // verus!
