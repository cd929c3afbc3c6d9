//! A bounded sliding window kept in both arrival order and rank order.

use vstd::prelude::*;

verus! {

use crate::rat::Rat;
use crate::ratio::{in64, lemma_lt_le_trans, rat_le, rat_lt, rwf, Ratio};
use vstd::multiset::Multiset;

/// The arrival-order entries tagged with their arrival ticks, starting at
/// `base`.
pub open spec fn tagged(a: Seq<Rat>, base: int) -> Seq<(Rat, u64)> {
    Seq::new(a.len(), |i: int| (a[i], (base + i) as u64))
}

/// The values of a sequence of rationals.
pub open spec fn views(s: Seq<Rat>) -> Seq<Ratio> {
    s.map_values(|r: Rat| r@)
}

/// The values of the rank-order entries.
pub open spec fn pair_views(s: Seq<(Rat, u64)>) -> Seq<Ratio> {
    s.map_values(|p: (Rat, u64)| p.0@)
}

/// A sequence of rationals is sorted in non-decreasing value order.
pub open spec fn sorted_vals(s: Seq<Ratio>) -> bool {
    forall|i: int, j: int| 0 <= i < j < s.len() ==> rat_le(#[trigger] s[i], #[trigger] s[j])
}

/// Keeps the last `window_size` observations twice: in arrival order, and as
/// the same entries sorted by value.  Entries carry their arrival tick so
/// that eviction removes exactly the entry that arrived first, even among
/// equal values.
pub struct SortedWindow {
    pub sorted: Vec<(Rat, u64)>,
    pub arrival: Vec<Rat>,
    pub window_size: usize,
    pub base: u64,
}

impl SortedWindow {
    /// Internal consistency: both sequences hold the same entries, the rank
    /// order is sorted, and the length never exceeds the window.
    pub open spec fn wf(&self) -> bool {
        &&& self.arrival@.len() == self.sorted@.len()
        &&& self.sorted@.len() <= self.window_size
        &&& 1 <= self.window_size
        &&& self.base + self.arrival@.len() <= u64::MAX
        &&& sorted_vals(pair_views(self.sorted@))
        &&& self.sorted@.to_multiset() == tagged(self.arrival@, self.base as int).to_multiset()
        &&& self.ranked().to_multiset() == self.window().to_multiset()
        &&& (forall|i: int| 0 <= i < self.sorted@.len() ==> in64((#[trigger] self.sorted@[i]).0@))
    }

    /// The current window contents, in arrival order, as values.
    pub open spec fn window(&self) -> Seq<Ratio> {
        views(self.arrival@)
    }

    /// The current window contents, in rank order, as values.
    pub open spec fn ranked(&self) -> Seq<Ratio> {
        pair_views(self.sorted@)
    }

    /// A fresh window of the given capacity.
    pub fn new(window_size: usize) -> (r: SortedWindow)
        requires
            1 <= window_size,
        ensures
            r.wf(),
            r.window() == Seq::<Ratio>::empty(),
            r.window_size == window_size,
            r.base == 0,
    {
        let r = SortedWindow {
            sorted: Vec::new(),
            arrival: Vec::new(),
            window_size,
            base: 0,
        };
        proof {
            assert(r.sorted@ =~= tagged(r.arrival@, 0));
            assert(r.ranked() =~= r.window());
            assert(r.window() =~= Seq::<Ratio>::empty());
        }
        r
    }

    /// How many observations the window currently holds.
    pub fn len(&self) -> (r: usize)
        ensures
            r == self.window().len(),
    {
        self.arrival.len()
    }

    /// The smallest value in the window.
    pub fn front(&self) -> (r: Rat)
        requires
            self.wf(),
            self.window().len() > 0,
        ensures
            r@ == self.ranked()[0],
            forall|i: int| 0 <= i < self.ranked().len() ==> rat_le(r@, #[trigger] self.ranked()[i]),
    {
        let p = self.sorted[0];
        p.0
    }

    /// The largest value in the window.
    pub fn back(&self) -> (r: Rat)
        requires
            self.wf(),
            self.window().len() > 0,
        ensures
            r@ == self.ranked()[self.ranked().len() - 1],
            forall|i: int| 0 <= i < self.ranked().len() ==> rat_le(#[trigger] self.ranked()[i], r@),
    {
        let p = self.sorted[self.sorted.len() - 1];
        p.0
    }

    /// The `i`-th smallest value in the window.
    pub fn at_rank(&self, i: usize) -> (r: Rat)
        requires
            self.wf(),
            i < self.window().len(),
        ensures
            r@ == self.ranked()[i as int],
    {
        let p = self.sorted[i];
        p.0
    }

    /// Pushes one observation, evicting the oldest when the window is full.
    /// The rank order stays a sorted permutation of the arrival order.
    pub fn push_back(&mut self, value: Rat)
        requires
            old(self).wf(),
            old(self).base + old(self).window_size < u64::MAX,
        ensures
            final(self).wf(),
            final(self).window_size == old(self).window_size,
            final(self).base == old(self).base + (if old(self).window().len() == old(
                self,
            ).window_size {
                1int
            } else {
                0int
            }),
            final(self).window() == (if old(self).window().len() == old(self).window_size {
                views(old(self).arrival@).drop_first().push(value@)
            } else {
                views(old(self).arrival@).push(value@)
            }),
            final(self).ranked().to_multiset() == final(self).window().to_multiset(),
    {
        proof {
            broadcast use vstd::seq_lib::group_seq_properties;

        }
        if self.arrival.len() == self.window_size {
            self.evict_oldest();
        }
        let ghost smid = self.sorted@;
        let ghost amid = self.arrival@;
        let tick = self.base + self.arrival.len() as u64;
        let idx = self.insert_pos(&value);
        self.sorted.insert(idx, (value, tick));
        self.arrival.push(value);
        proof {
            let a1 = self.arrival@;
            let b = self.base as int;
            assert(a1.drop_last() =~= amid);
            assert(tagged(a1, b) =~= tagged(amid, b).push((value, (b + amid.len()) as u64)));
            lemma_insert_multiset(smid, idx as int, (value, tick));
            vstd::seq_lib::to_multiset_build(tagged(amid, b), (value, tick));
            assert(self.sorted@.to_multiset() =~= tagged(a1, b).to_multiset());
            lemma_pair_values_multiset(self.sorted@, a1, b);
            use_type_invariant(&value);
            Rat::lemma_inv_in64(value);
            assert forall|i: int| 0 <= i < self.sorted@.len() implies in64(
                (#[trigger] self.sorted@[i]).0@,
            ) by {
                assert(self.sorted@ == smid.insert(idx as int, (value, tick)));
                if i < idx {
                    assert(self.sorted@[i] == smid[i]);
                } else if i == idx {
                    assert(self.sorted@[i] == (value, tick));
                } else {
                    assert(self.sorted@[i] == smid[i - 1]);
                }
            }
            assert forall|p: int, q: int|
                0 <= p < q < pair_views(self.sorted@).len() implies rat_le(
                #[trigger] pair_views(self.sorted@)[p],
                #[trigger] pair_views(self.sorted@)[q],
            ) by {
                assert(pair_views(self.sorted@)[p] == self.sorted@[p].0@);
                assert(pair_views(self.sorted@)[q] == self.sorted@[q].0@);
                if p < idx && q < idx {
                    assert(self.sorted@[p] == smid[p] && self.sorted@[q] == smid[q]);
                    assert(pair_views(smid)[p] == smid[p].0@ && pair_views(smid)[q] == smid[q].0@);
                } else if p < idx && q == idx {
                    assert(self.sorted@[p] == smid[p]);
                    assert(pair_views(smid)[p] == smid[p].0@);
                    assert(rat_le(pair_views(smid)[p], value@));
                } else if p < idx && q > idx {
                    assert(self.sorted@[p] == smid[p] && self.sorted@[q] == smid[q - 1]);
                    assert(pair_views(smid)[p] == smid[p].0@ && pair_views(smid)[q - 1] == smid[q
                        - 1].0@);
                } else if p == idx && q > idx {
                    assert(self.sorted@[q] == smid[q - 1]);
                    assert(pair_views(smid)[q - 1] == smid[q - 1].0@);
                    assert(rat_lt(value@, pair_views(smid)[q - 1]));
                } else {
                    assert(self.sorted@[p] == smid[p - 1] && self.sorted@[q] == smid[q - 1]);
                    assert(pair_views(smid)[p - 1] == smid[p - 1].0@ && pair_views(smid)[q - 1]
                        == smid[q - 1].0@);
                }
            }
            assert(final(self).window() =~= (if old(self).window().len() == old(
                self,
            ).window_size {
                views(old(self).arrival@).drop_first().push(value@)
            } else {
                views(old(self).arrival@).push(value@)
            }));
        }
    }

    /// Removes the entry that arrived first from the rank-order sequence and
    /// the arrival sequence, advancing the base tick.
    fn evict_oldest(&mut self)
        requires
            old(self).wf(),
            old(self).arrival@.len() > 0,
        ensures
            final(self).wf(),
            final(self).window_size == old(self).window_size,
            final(self).arrival@ == old(self).arrival@.drop_first(),
            final(self).base == old(self).base + 1,
            final(self).arrival@.len() == old(self).arrival@.len() - 1,
    {
        proof {
            broadcast use vstd::seq_lib::group_seq_properties;

        }
        let ghost t0 = tagged(old(self).arrival@, old(self).base as int);
        proof {
            assert(t0[0] == (old(self).arrival@[0], old(self).base));
            assert(t0.to_multiset().contains(t0[0])) by {
                t0.to_multiset_ensures();
            }
            assert(old(self).sorted@.to_multiset().contains(t0[0]));
            old(self).sorted@.to_multiset_ensures();
            assert(old(self).sorted@.contains(t0[0]));
        }
        let mut j: usize = 0;
        let oldest = self.base;
        while j < self.sorted.len() && self.sorted[j].1 != oldest
            invariant
                self.sorted@ == old(self).sorted@,
                0 <= j <= self.sorted@.len(),
                forall|i: int| 0 <= i < j ==> (#[trigger] self.sorted@[i]).1 != oldest,
                oldest == self.base,
                exists|i: int|
                    0 <= i < self.sorted@.len() && (#[trigger] self.sorted@[i]).1 == oldest,
            decreases self.sorted@.len() - j,
        {
            j = j + 1;
        }
        proof {
            assert(self.sorted@[j as int].1 == oldest);
            lemma_tick_unique(self.sorted@, old(self).arrival@, old(self).base as int, j as int);
            assert(self.sorted@[j as int] == (old(self).arrival@[0], old(self).base));
        }
        self.sorted.remove(j);
        self.arrival.remove(0);
        self.base = self.base + 1;
        proof {
            old(self).sorted@.to_multiset_ensures();
            vstd::seq_lib::to_multiset_remove(old(self).sorted@, j as int);
            vstd::seq_lib::to_multiset_remove(
                tagged(old(self).arrival@, old(self).base as int),
                0,
            );
            assert(tagged(old(self).arrival@, old(self).base as int).remove(0) =~= tagged(
                self.arrival@,
                self.base as int,
            ));
            assert(self.sorted@.to_multiset() =~= tagged(
                self.arrival@,
                self.base as int,
            ).to_multiset());
            lemma_pair_values_multiset(self.sorted@, self.arrival@, self.base as int);
            assert forall|i: int| 0 <= i < self.sorted@.len() implies in64(
                (#[trigger] self.sorted@[i]).0@,
            ) by {
                let jj = if i < j { i } else { i + 1 };
                assert(self.sorted@[i] == old(self).sorted@[jj]);
            }
            assert(sorted_vals(pair_views(self.sorted@))) by {
                assert forall|p: int, q: int|
                    0 <= p < q < pair_views(self.sorted@).len() implies rat_le(
                    #[trigger] pair_views(self.sorted@)[p],
                    #[trigger] pair_views(self.sorted@)[q],
                ) by {
                    let jp = if p < j { p } else { p + 1 };
                    let jq = if q < j { q } else { q + 1 };
                    assert(pair_views(self.sorted@)[p] == pair_views(old(self).sorted@)[jp]);
                    assert(pair_views(self.sorted@)[q] == pair_views(old(self).sorted@)[jq]);
                }
            }
        }
    }

    /// The first rank-order position whose value exceeds `value`.
    fn insert_pos(&self, value: &Rat) -> (r: usize)
        requires
            self.wf(),
        ensures
            r <= self.ranked().len(),
            forall|i: int| 0 <= i < r ==> rat_le(#[trigger] self.ranked()[i], value@),
            forall|i: int|
                r <= i < self.ranked().len() ==> rat_lt(value@, #[trigger] self.ranked()[i]),
    {
        let mut i: usize = 0;
        while i < self.sorted.len() && self.sorted[i].0.le(value)
            invariant
                self.wf(),
                0 <= i <= self.sorted@.len(),
                forall|p: int| 0 <= p < i ==> rat_le(#[trigger] self.ranked()[p], value@),
            decreases self.sorted@.len() - i,
        {
            i = i + 1;
        }
        proof {
            use_type_invariant(&*value);
            Rat::lemma_inv_in64(*value);
            if i < self.sorted@.len() {
                assert forall|p: int| i <= p < self.ranked().len() implies rat_lt(
                    value@,
                    #[trigger] self.ranked()[p],
                ) by {
                    assert(self.ranked()[i as int] == self.sorted@[i as int].0@);
                    assert(self.ranked()[p] == self.sorted@[p].0@);
                    assert(in64(self.sorted@[i as int].0@));
                    assert(in64(self.sorted@[p].0@));
                    lemma_lt_le_trans(value@, self.ranked()[i as int], self.ranked()[p]);
                }
            }
        }
        i
    }
}

/// Inserting an entry adds exactly that entry to the multiset.
proof fn lemma_insert_multiset(s: Seq<(Rat, u64)>, i: int, v: (Rat, u64))
    requires
        0 <= i <= s.len(),
    ensures
        s.insert(i, v).to_multiset() == s.to_multiset().insert(v),
{
    broadcast use vstd::seq_lib::group_seq_properties;

    let t = s.insert(i, v);
    assert(t =~= s.subrange(0, i).add(seq![v].add(s.subrange(i, s.len() as int))));
    vstd::seq_lib::lemma_multiset_commutative(s.subrange(0, i), seq![v].add(s.subrange(i, s.len() as int)));
    vstd::seq_lib::lemma_multiset_commutative(seq![v], s.subrange(i, s.len() as int));
    assert(seq![v].to_multiset() =~= Multiset::<(Rat, u64)>::empty().insert(v)) by {
        seq![v].to_multiset_ensures();
        assert(seq![v] =~= Seq::<(Rat, u64)>::empty().push(v));
        Seq::<(Rat, u64)>::empty().to_multiset_ensures();
    }
    vstd::seq_lib::lemma_multiset_commutative(s.subrange(0, i), s.subrange(i, s.len() as int));
    assert(s =~= s.subrange(0, i).add(s.subrange(i, s.len() as int)));
    assert(t.to_multiset() =~= s.to_multiset().insert(v));
}

/// In a rank-order sequence that mirrors a tagged arrival sequence, the entry
/// carrying the base tick is the first arrival.
proof fn lemma_tick_unique(s: Seq<(Rat, u64)>, a: Seq<Rat>, base: int, j: int)
    requires
        0 <= j < s.len(),
        a.len() == s.len(),
        0 <= base,
        base + a.len() <= u64::MAX,
        s.to_multiset() == tagged(a, base).to_multiset(),
        s[j].1 == base as u64,
        a.len() > 0,
    ensures
        s[j] == (a[0], base as u64),
{
    s.to_multiset_ensures();
    assert(s.contains(s[j]));
    assert(s.to_multiset().count(s[j]) > 0);
    tagged(a, base).to_multiset_ensures();
    assert(tagged(a, base).to_multiset().count(s[j]) > 0);
    assert(tagged(a, base).contains(s[j]));
    let i = choose|i: int| 0 <= i < tagged(a, base).len() && tagged(a, base)[i] == s[j];
    assert(tagged(a, base)[i].1 == (base + i) as u64);
    assert(0 <= base + i <= u64::MAX);
    assert((base + i) as u64 == base as u64);
    assert(i == 0);
}

/// Multiset equality of tagged entries gives multiset equality of values.
proof fn lemma_pair_values_multiset(s: Seq<(Rat, u64)>, a: Seq<Rat>, base: int)
    requires
        s.to_multiset() == tagged(a, base).to_multiset(),
    ensures
        pair_views(s).to_multiset() == views(a).to_multiset(),
    decreases s.len(),
{
    s.to_multiset_ensures();
    tagged(a, base).to_multiset_ensures();
    if s.len() == 0 {
        assert(tagged(a, base).len() == 0);
        assert(a.len() == 0);
        assert(pair_views(s) =~= Seq::<Ratio>::empty());
        assert(views(a) =~= Seq::<Ratio>::empty());
    } else {
        assert(a.len() == s.len());
        // remove the entry (a[0], base) from both sides and recurse
        let t = tagged(a, base);
        assert(t[0] == (a[0], base as u64));
        assert(t.to_multiset().contains(t[0]));
        assert(s.to_multiset().contains(t[0]));
        assert(s.contains(t[0]));
        let j = choose|j: int| 0 <= j < s.len() && s[j] == t[0];
        vstd::seq_lib::to_multiset_remove(s, j);
        vstd::seq_lib::to_multiset_remove(t, 0);
        assert(t.remove(0) =~= tagged(a.drop_first(), base + 1));
        lemma_pair_values_multiset(s.remove(j), a.drop_first(), base + 1);
        // now lift back through the maps
        assert(pair_views(s.remove(j)) =~= pair_views(s).remove(j));
        assert(views(a.drop_first()) =~= views(a).remove(0));
        vstd::seq_lib::to_multiset_remove(pair_views(s), j);
        vstd::seq_lib::to_multiset_remove(views(a), 0);
        assert(pair_views(s)[j] == t[0].0@);
        assert(views(a)[0] == a[0]@);
        assert(pair_views(s).to_multiset().remove(t[0].0@) =~= views(a).to_multiset().remove(
            a[0]@,
        ));
        s.to_multiset_ensures();
        pair_views(s).to_multiset_ensures();
        views(a).to_multiset_ensures();
        assert(pair_views(s).to_multiset().count(t[0].0@) > 0) by {
            assert(pair_views(s).contains(t[0].0@)) by {
                assert(pair_views(s)[j] == t[0].0@);
            }
        }
        assert(views(a).to_multiset().count(a[0]@) > 0) by {
            assert(views(a).contains(a[0]@)) by {
                assert(views(a)[0] == a[0]@);
            }
        }
        assert(pair_views(s).to_multiset() =~= views(a).to_multiset()) by {
            let mp = pair_views(s).to_multiset();
            let mv = views(a).to_multiset();
            assert forall|x: Ratio| mp.count(x) == mv.count(x) by {
                if x == t[0].0@ {
                    assert(mp.remove(x).count(x) == mv.remove(x).count(x));
                } else {
                    assert(mp.remove(t[0].0@).count(x) == mv.remove(a[0]@).count(x));
                }
            }
        }
    }
}
/// The window law: however the window was filled, the rank-order sequence is
/// always sorted and is a permutation (as a multiset of values) of the
/// arrival-order sequence.
pub proof fn lemma_rank_order_is_sorted_permutation(w: &SortedWindow)
    requires
        w.wf(),
    ensures
        sorted_vals(w.ranked()),
        w.ranked().to_multiset() == w.window().to_multiset(),
{
}

} // verus!
