//! Structural editing of a [`WeightedList`]: truncation in weight space,
//! pruning, filtering, reversal, value removal and bulk weight assignment.

use vstd::prelude::*;

use crate::model::{
    lemma_sum_fits_i128, lemma_sum_take_all, lemma_sum_take_succ, sum_weights, truncate_spec,
};
use crate::weighted_item::WeightedItem;
use crate::weighted_list::WeightedList;

verus! {

/// The subsequence of `s` selected by the `keep` mask, in order.
pub open spec fn masked(s: Seq<WeightedItem>, keep: Seq<bool>) -> Seq<WeightedItem>
    decreases s.len(),
{
    if s.len() == 0 {
        Seq::<WeightedItem>::empty()
    } else {
        (if keep[0] {
            seq![s[0]]
        } else {
            Seq::<WeightedItem>::empty()
        }) + masked(s.drop_first(), keep.drop_first())
    }
}

/// The kept items among a sequence of keep-or-replace verdicts, in order.
pub open spec fn collected(verdicts: Seq<Option<WeightedItem>>) -> Seq<WeightedItem>
    decreases verdicts.len(),
{
    if verdicts.len() == 0 {
        Seq::<WeightedItem>::empty()
    } else {
        (match verdicts[0] {
            Some(it) => seq![it],
            None => Seq::<WeightedItem>::empty(),
        }) + collected(verdicts.drop_first())
    }
}

proof fn lemma_masked_push(s: Seq<WeightedItem>, keep: Seq<bool>, x: WeightedItem, b: bool)
    requires
        s.len() == keep.len(),
    ensures
        masked(s.push(x), keep.push(b)) == masked(s, keep) + (if b {
            seq![x]
        } else {
            Seq::<WeightedItem>::empty()
        }),
    decreases s.len(),
{
    if s.len() == 0 {
        assert(s.push(x).drop_first() =~= Seq::<WeightedItem>::empty());
        assert(keep.push(b).drop_first() =~= Seq::<bool>::empty());
        assert(s.push(x)[0] == x);
        assert(keep.push(b)[0] == b);
        assert(masked(s.push(x).drop_first(), keep.push(b).drop_first()) =~= Seq::<
            WeightedItem,
        >::empty());
        assert(masked(s, keep) =~= Seq::<WeightedItem>::empty());
        assert(masked(s.push(x), keep.push(b)) =~= masked(s, keep) + (if b {
            seq![x]
        } else {
            Seq::<WeightedItem>::empty()
        }));
    } else {
        assert(s.push(x).drop_first() =~= s.drop_first().push(x));
        assert(keep.push(b).drop_first() =~= keep.drop_first().push(b));
        assert(s.push(x)[0] == s[0]);
        assert(keep.push(b)[0] == keep[0]);
        lemma_masked_push(s.drop_first(), keep.drop_first(), x, b);
        assert(masked(s.push(x), keep.push(b)) =~= masked(s, keep) + (if b {
            seq![x]
        } else {
            Seq::<WeightedItem>::empty()
        }));
    }
}

proof fn lemma_collected_push(verdicts: Seq<Option<WeightedItem>>, v: Option<WeightedItem>)
    ensures
        collected(verdicts.push(v)) == collected(verdicts) + (match v {
            Some(it) => seq![it],
            None => Seq::<WeightedItem>::empty(),
        }),
    decreases verdicts.len(),
{
    if verdicts.len() == 0 {
        assert(verdicts.push(v).drop_first() =~= Seq::<Option<WeightedItem>>::empty());
        assert(verdicts.push(v)[0] == v);
        assert(collected(verdicts.push(v).drop_first()) =~= Seq::<WeightedItem>::empty());
        assert(collected(verdicts) =~= Seq::<WeightedItem>::empty());
        assert(collected(verdicts.push(v)) =~= collected(verdicts) + (match v {
            Some(it) => seq![it],
            None => Seq::<WeightedItem>::empty(),
        }));
    } else {
        assert(verdicts.push(v).drop_first() =~= verdicts.drop_first().push(v));
        assert(verdicts.push(v)[0] == verdicts[0]);
        lemma_collected_push(verdicts.drop_first(), v);
        assert(collected(verdicts.push(v)) =~= collected(verdicts) + (match v {
            Some(it) => seq![it],
            None => Seq::<WeightedItem>::empty(),
        }));
    }
}

impl WeightedList {
    /// Cut the list down so that its weighted length is exactly `target`
    /// (or is left unchanged when it does not exceed `target`). Items are
    /// kept while their full weights fit; the item straddling the boundary
    /// keeps only the weight that fits; everything after it is removed.
    pub fn truncate(&mut self, target: i64)
        ensures
            final(self)@ == truncate_spec(old(self)@, target as int),
    {
        let ghost s = old(self)@;
        let n = self.total_values();
        let mut t: i128 = 0;
        let mut i: usize = 0;
        proof {
            assert(s.skip(0) =~= s);
            assert(s.take(0) =~= Seq::<WeightedItem>::empty());
            assert(s.take(0) + truncate_spec(s.skip(0), target as int) =~= truncate_spec(
                s,
                target as int,
            ));
        }
        while i < n
            invariant
                s == old(self)@,
                self@ == s,
                n == s.len(),
                i <= n,
                t == sum_weights(s.take(i as int)),
                truncate_spec(s, target as int) == s.take(i as int) + truncate_spec(
                    s.skip(i as int),
                    target - t,
                ),
            decreases n - i,
        {
            let ghost tail = s.skip(i as int);
            proof {
                assert(tail[0] == s[i as int]);
                assert(tail.drop_first() =~= s.skip(i + 1));
                lemma_sum_take_succ(s, i as int);
                assert(s.take(i + 1).len() == i + 1);
                lemma_sum_fits_i128(s.take(i + 1));
            }
            let w = self.items()[i].weight;
            if t + (w as i128) <= (target as i128) {
                proof {
                    assert(truncate_spec(tail, target - t) == seq![s[i as int]] + truncate_spec(
                        s.skip(i + 1),
                        target - t - w,
                    ));
                    assert(s.take(i as int) + (seq![s[i as int]] + truncate_spec(
                        s.skip(i + 1),
                        target - t - w,
                    )) =~= s.take(i + 1) + truncate_spec(s.skip(i + 1), target - t - w));
                }
                t = t + (w as i128);
                i += 1;
            } else {
                proof {
                    crate::model::lemma_sum_bounds(s.take(i as int));
                    assert(s.take(i as int).len() == i);
                    assert((i as int) * (i64::MIN as int) >= 0xffff_ffff_ffff_ffff
                        * (i64::MIN as int)) by (nonlinear_arith)
                        requires
                            i as int <= 0xffff_ffff_ffff_ffff,
                    ;
                    assert((i as int) * (i64::MAX as int) <= 0xffff_ffff_ffff_ffff
                        * (i64::MAX as int)) by (nonlinear_arith)
                        requires
                            i as int <= 0xffff_ffff_ffff_ffff,
                    ;
                }
                let rem = (target as i128) - t;
                if rem > 0 {
                    let value = self.items()[i].value.clone();
                    self.set_item(i, WeightedItem { weight: rem as i64, value });
                    self.truncate_phys(i + 1);
                    proof {
                        assert(truncate_spec(tail, target - t) =~= seq![
                            WeightedItem { weight: (target - t) as i64, value: s[i as int].value },
                        ]);
                        assert(s.update(
                            i as int,
                            WeightedItem { weight: (target - t) as i64, value: s[i as int].value },
                        ).take(i + 1) =~= s.take(i as int) + truncate_spec(tail, target - t));
                    }
                } else {
                    self.truncate_phys(i);
                    proof {
                        assert(truncate_spec(tail, target - t) =~= Seq::<WeightedItem>::empty());
                        assert(s.take(i as int) + truncate_spec(tail, target - t) =~= s.take(
                            i as int,
                        ));
                    }
                }
                return ;
            }
        }
        proof {
            assert(s.skip(n as int).len() == 0);
            assert(s.take(n as int) + truncate_spec(s.skip(n as int), target - t) =~= s.take(
                n as int,
            ));
            assert(s.take(n as int) =~= s);
        }
    }

    /// Remove every item whose weight is zero or negative.
    ///
    /// Such items are unreachable through weighted indexing but otherwise
    /// valid; pruning them is an explicit opt-in cleanup.
    pub fn prune(&mut self)
        ensures
            final(self)@ == old(self)@.filter(|it: WeightedItem| it.weight > 0),
    {
        self.retain_positive();
    }

    /// Return a clone of the list with all non-positive-weight items
    /// removed.
    pub fn pruned(&self) -> (r: Self)
        ensures
            r@ == self@.filter(|it: WeightedItem| it.weight > 0),
    {
        let mut out = self.clone();
        out.prune();
        out
    }

    /// The filtering loop behind [`Self::prune`].
    fn retain_positive(&mut self)
        ensures
            final(self)@ == old(self)@.filter(|it: WeightedItem| it.weight > 0),
    {
        let ghost s = old(self)@;
        let n = self.total_values();
        let mut out: Vec<WeightedItem> = Vec::new();
        let mut i: usize = 0;
        while i < n
            invariant
                s == old(self)@,
                self@ == s,
                n == s.len(),
                i <= n,
                out@ == s.take(i as int).filter(|it: WeightedItem| it.weight > 0),
            decreases n - i,
        {
            proof {
                crate::model::lemma_filter_push(
                    s.take(i as int),
                    |it: WeightedItem| it.weight > 0,
                    s[i as int],
                );
                assert(s.take(i + 1) =~= s.take(i as int).push(s[i as int]));
            }
            if self.items()[i].weight > 0 {
                let item = self.items()[i].clone();
                out.push(item);
            }
            i += 1;
        }
        proof {
            assert(s.take(n as int) =~= s);
        }
        self.set_items(out);
    }

    /// Keep only the items for which `predicate` returns `true`, in order:
    /// afterwards the list is exactly the old items masked by the
    /// predicate's verdicts.
    pub fn retain<F: Fn(&WeightedItem) -> bool>(&mut self, predicate: F)
        requires
            forall|it: WeightedItem| old(self)@.contains(it) ==> predicate.requires((&it,)),
        ensures
            final(self)@.len() <= old(self)@.len(),
            ({
                let s0 = old(self)@;
                let s1 = final(self)@;
                exists|keep: Seq<bool>|
                    #![auto]
                    keep.len() == s0.len() && (forall|j: int|
                        0 <= j < keep.len() ==> predicate.ensures((&s0[j],), keep[j])) && s1
                        == masked(s0, keep)
            }),
    {
        let ghost s = old(self)@;
        let n = self.total_values();
        let mut out: Vec<WeightedItem> = Vec::new();
        let ghost mut keepv: Seq<bool> = Seq::empty();
        let mut i: usize = 0;
        proof {
            assert(masked(s.take(0), keepv) =~= Seq::<WeightedItem>::empty());
        }
        while i < n
            invariant
                s == old(self)@,
                self@ == s,
                n == s.len(),
                i <= n,
                keepv.len() == i,
                out@.len() <= i,
                forall|it: WeightedItem| s.contains(it) ==> predicate.requires((&it,)),
                forall|j: int| 0 <= j < i ==> predicate.ensures((&s[j],), keepv[j]),
                out@ == masked(s.take(i as int), keepv),
            decreases n - i,
        {
            proof {
                assert(s.contains(s[i as int]));
            }
            let keep = predicate(&self.items()[i]);
            if keep {
                let item = self.items()[i].clone();
                out.push(item);
            }
            proof {
                let keep0 = keepv;
                keepv = keepv.push(keep);
                lemma_masked_push(s.take(i as int), keep0, s[i as int], keep);
                assert(s.take(i + 1) =~= s.take(i as int).push(s[i as int]));
                if keep {
                    assert(out@ =~= masked(s.take(i as int), keep0) + seq![s[i as int]]);
                } else {
                    assert(out@ =~= masked(s.take(i as int), keep0) + Seq::<WeightedItem>::empty());
                }
            }
            i += 1;
        }
        proof {
            assert(s.take(n as int) =~= s);
        }
        self.set_items(out);
        proof {
            assert(keepv.len() == old(self)@.len() && (forall|j: int|
                0 <= j < keepv.len() ==> predicate.ensures((&old(self)@[j],), keepv[j]))
                && self@ == masked(old(self)@, keepv));
        }
    }

    /// Keep only the items for which `predicate` returns an updated item,
    /// replacing each kept item with what the predicate returned: afterwards
    /// the list is exactly the old items passed through the predicate, with
    /// the `None` verdicts dropped.
    ///
    /// This is the shape the in-place-updating retain takes here: the
    /// predicate hands back `Some` replacement to keep an item (possibly
    /// with a changed weight or value), or `None` to drop it.
    pub fn retain_mut<F: Fn(&WeightedItem) -> Option<WeightedItem>>(&mut self, predicate: F)
        requires
            forall|it: WeightedItem| old(self)@.contains(it) ==> predicate.requires((&it,)),
        ensures
            final(self)@.len() <= old(self)@.len(),
            exists|verdicts: Seq<Option<WeightedItem>>|
                #![auto]
                verdicts.len() == old(self)@.len() && (forall|j: int|
                    0 <= j < verdicts.len() ==> predicate.ensures((&old(self)@[j],), verdicts[j]))
                    && final(self)@ == collected(verdicts),
    {
        let ghost s = old(self)@;
        let n = self.total_values();
        let mut out: Vec<WeightedItem> = Vec::new();
        let ghost mut resv: Seq<Option<WeightedItem>> = Seq::empty();
        let mut i: usize = 0;
        proof {
            assert(collected(resv) =~= Seq::<WeightedItem>::empty());
        }
        while i < n
            invariant
                s == old(self)@,
                self@ == s,
                n == s.len(),
                i <= n,
                resv.len() == i,
                out@.len() <= i,
                forall|it: WeightedItem| s.contains(it) ==> predicate.requires((&it,)),
                forall|j: int| 0 <= j < i ==> predicate.ensures((&s[j],), resv[j]),
                out@ == collected(resv),
            decreases n - i,
        {
            proof {
                assert(s.contains(s[i as int]));
            }
            let verdict = predicate(&self.items()[i]);
            let ghost v = verdict;
            match verdict {
                Some(updated) => {
                    out.push(updated);
                },
                None => {},
            }
            proof {
                let res0 = resv;
                resv = resv.push(v);
                lemma_collected_push(res0, v);
                match v {
                    Some(it) => {
                        assert(out@ =~= collected(res0) + seq![it]);
                    },
                    None => {
                        assert(out@ =~= collected(res0) + Seq::<WeightedItem>::empty());
                    },
                }
            }
            i += 1;
        }
        self.set_items(out);
        proof {
            assert(resv.len() == old(self)@.len() && (forall|j: int|
                0 <= j < resv.len() ==> predicate.ensures((&old(self)@[j],), resv[j])) && self@
                == collected(resv));
        }
    }

    /// Remove the first (leftmost) item that matches `predicate`, if any
    /// matches.
    pub fn remove_first_where<F: Fn(&WeightedItem) -> bool>(&mut self, predicate: F)
        requires
            forall|it: WeightedItem| old(self)@.contains(it) ==> predicate.requires((&it,)),
        ensures
            ({
                let s0 = old(self)@;
                let s1 = final(self)@;
                ||| (s1 == s0 && forall|j: int|
                    0 <= j < s0.len() ==> predicate.ensures((&s0[j],), false))
                ||| exists|k: int|
                    #![auto]
                    0 <= k < s0.len() && predicate.ensures((&s0[k],), true) && (forall|j: int|
                        0 <= j < k ==> predicate.ensures((&s0[j],), false)) && s1 == s0.remove(k)
            }),
    {
        let ghost s = old(self)@;
        let n = self.total_values();
        let mut i: usize = 0;
        while i < n
            invariant
                s == old(self)@,
                self@ == s,
                n == s.len(),
                i <= n,
                forall|it: WeightedItem| s.contains(it) ==> predicate.requires((&it,)),
                forall|j: int| 0 <= j < i ==> predicate.ensures((&s[j],), false),
            decreases n - i,
        {
            proof {
                assert(s.contains(s[i as int]));
            }
            if predicate(&self.items()[i]) {
                self.remove_phys(i);
                return ;
            }
            i += 1;
        }
    }

    /// Remove the last (rightmost) item that matches `predicate`, if any
    /// matches.
    pub fn remove_last_where<F: Fn(&WeightedItem) -> bool>(&mut self, predicate: F)
        requires
            forall|it: WeightedItem| old(self)@.contains(it) ==> predicate.requires((&it,)),
        ensures
            ({
                let s0 = old(self)@;
                let s1 = final(self)@;
                ||| (s1 == s0 && forall|j: int|
                    0 <= j < s0.len() ==> predicate.ensures((&s0[j],), false))
                ||| exists|k: int|
                    #![auto]
                    0 <= k < s0.len() && predicate.ensures((&s0[k],), true) && (forall|j: int|
                        k < j < s0.len() ==> predicate.ensures((&s0[j],), false)) && s1 == s0.remove(
                        k,
                    )
            }),
    {
        let ghost s = old(self)@;
        let n = self.total_values();
        let mut i: usize = n;
        while i > 0
            invariant
                s == old(self)@,
                self@ == s,
                n == s.len(),
                i <= n,
                forall|it: WeightedItem| s.contains(it) ==> predicate.requires((&it,)),
                forall|j: int| i <= j < n ==> predicate.ensures((&s[j],), false),
            decreases i,
        {
            i -= 1;
            proof {
                assert(s.contains(s[i as int]));
            }
            if predicate(&self.items()[i]) {
                self.remove_phys(i);
                return ;
            }
        }
    }

    /// Remove the first (leftmost) item whose value equals `value`, if any
    /// item's does.
    pub fn remove_value_first(&mut self, value: &String)
        ensures
            ({
                let s0 = old(self)@;
                let s1 = final(self)@;
                if exists|k: int| 0 <= k < s0.len() && s0[k].value@ == value@ {
                    exists|k: int|
                        #![auto]
                        0 <= k < s0.len() && s0[k].value@ == value@ && (forall|j: int|
                            0 <= j < k ==> s0[j].value@ != value@) && s1 == s0.remove(k)
                } else {
                    s1 == s0
                }
            }),
    {
        let ghost s = old(self)@;
        let n = self.total_values();
        let mut i: usize = 0;
        while i < n
            invariant
                s == old(self)@,
                self@ == s,
                n == s.len(),
                i <= n,
                forall|j: int| 0 <= j < i ==> s[j].value@ != value@,
            decreases n - i,
        {
            if self.items()[i].value == *value {
                self.remove_phys(i);
                return ;
            }
            i += 1;
        }
    }

    /// Remove the last (rightmost) item whose value equals `value`, if any
    /// item's does.
    pub fn remove_value_last(&mut self, value: &String)
        ensures
            ({
                let s0 = old(self)@;
                let s1 = final(self)@;
                if exists|k: int| 0 <= k < s0.len() && s0[k].value@ == value@ {
                    exists|k: int|
                        #![auto]
                        0 <= k < s0.len() && s0[k].value@ == value@ && (forall|j: int|
                            k < j < s0.len() ==> s0[j].value@ != value@) && s1 == s0.remove(k)
                } else {
                    s1 == s0
                }
            }),
    {
        let ghost s = old(self)@;
        let n = self.total_values();
        let mut i: usize = n;
        while i > 0
            invariant
                s == old(self)@,
                self@ == s,
                n == s.len(),
                i <= n,
                forall|j: int| i <= j < n ==> s[j].value@ != value@,
            decreases i,
        {
            i -= 1;
            if self.items()[i].value == *value {
                self.remove_phys(i);
                return ;
            }
        }
    }

    /// Reverse the order of items in the list.
    pub fn reverse(&mut self)
        ensures
            final(self)@.len() == old(self)@.len(),
            forall|j: int|
                0 <= j < old(self)@.len() ==> final(self)@[j] == old(self)@[old(self)@.len() - 1
                    - j],
    {
        let ghost s = old(self)@;
        let n = self.total_values();
        let mut out: Vec<WeightedItem> = Vec::new();
        let mut i: usize = 0;
        while i < n
            invariant
                s == old(self)@,
                self@ == s,
                n == s.len(),
                i <= n,
                out@.len() == i,
                forall|j: int| 0 <= j < i ==> out@[j] == s[n - 1 - j],
            decreases n - i,
        {
            let item = self.items()[n - 1 - i].clone();
            out.push(item);
            i += 1;
        }
        self.set_items(out);
    }

    /// Return a clone of the list with the order of items reversed.
    pub fn reversed(&self) -> (r: Self)
        ensures
            r@.len() == self@.len(),
            forall|j: int| 0 <= j < self@.len() ==> r@[j] == self@[self@.len() - 1 - j],
    {
        let mut out = self.clone();
        out.reverse();
        out
    }

    /// Set the weight of every item to `0`.
    pub fn zero_all_weights(&mut self)
        ensures
            final(self)@ == old(self)@.map_values(
                |it: WeightedItem| WeightedItem { weight: 0i64, value: it.value },
            ),
    {
        self.set_all_weights(0);
        proof {
            assert(self@ =~= old(self)@.map_values(
                |it: WeightedItem| WeightedItem { weight: 0i64, value: it.value },
            ));
        }
    }

    /// Set the weight of every item to `weight`.
    pub fn set_all_weights(&mut self, weight: i64)
        ensures
            final(self)@ == old(self)@.map_values(
                |it: WeightedItem| WeightedItem { weight, value: it.value },
            ),
    {
        let ghost s = old(self)@;
        let n = self.total_values();
        let mut i: usize = 0;
        while i < n
            invariant
                s == old(self)@,
                n == s.len(),
                self@.len() == n,
                i <= n,
                forall|j: int|
                    0 <= j < n ==> self@[j] == if j < i {
                        WeightedItem { weight, value: s[j].value }
                    } else {
                        s[j]
                    },
            decreases n - i,
        {
            let value = self.items()[i].value.clone();
            self.set_item(i, WeightedItem { weight, value });
            i += 1;
        }
        proof {
            assert(self@ =~= old(self)@.map_values(
                |it: WeightedItem| WeightedItem { weight, value: it.value },
            ));
        }
    }
}

} // verus!
