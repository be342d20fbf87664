//! The frozen weighted list: cumulative weights are computed once, at
//! construction, so that a weighted index resolves by binary search over the
//! monotone prefix sums instead of a linear rescan. The price is rigidity:
//! this variant offers no structural mutation, since any edit would
//! invalidate every cumulative weight after it.

use vstd::prelude::*;

use crate::frozen_weighted_item::FrozenWeightedItem;
use crate::model::{
    lemma_lookup_at, lemma_lookup_found, lemma_lookup_props, lemma_prefix_in_range,
    lemma_prefix_monotone, lemma_sum_take_all, lemma_sum_take_succ, lookup_pos, nonneg_weights,
    sum_weights,
};
use crate::weighted_item::WeightedItem;
use crate::weighted_list::{items_of_pairs, WeightedList};

verus! {

/// The plain (weight, value) items underlying a sequence of frozen items.
pub open spec fn frozen_pairs(s: Seq<FrozenWeightedItem>) -> Seq<WeightedItem> {
    s.map_values(|it: FrozenWeightedItem| WeightedItem { weight: it.weight, value: it.value })
}

/// Well-formedness of a frozen sequence: weights are non-negative and every
/// stored cumulative weight is the exact prefix sum of the weights through
/// that item.
pub open spec fn frozen_wf(s: Seq<FrozenWeightedItem>) -> bool {
    forall|k: int|
        0 <= k < s.len() ==> (#[trigger] s[k]).weight >= 0 && s[k].cumulative_weight
            == sum_weights(frozen_pairs(s).take(k + 1))
}

/// An ordered sequence of [`FrozenWeightedItem`]s addressed by weighted
/// index, resolved in logarithmic time by binary search over the
/// precomputed cumulative weights.
pub struct FrozenWeightedList {
    data: Vec<FrozenWeightedItem>,
}

impl View for FrozenWeightedList {
    type V = Seq<FrozenWeightedItem>;

    closed spec fn view(&self) -> Seq<FrozenWeightedItem> {
        self.data@
    }
}

impl FrozenWeightedList {
    #[verifier::type_invariant]
    spec fn wf(self) -> bool {
        frozen_wf(self@)
    }

    /// Construct an empty list.
    pub fn new() -> (r: Self)
        ensures
            r@ == Seq::<FrozenWeightedItem>::empty(),
    {
        FrozenWeightedList { data: Vec::new() }
    }

    /// Construct an empty list with the specified capacity.
    pub fn with_capacity(capacity: usize) -> (r: Self)
        ensures
            r@ == Seq::<FrozenWeightedItem>::empty(),
    {
        FrozenWeightedList { data: Vec::with_capacity(capacity) }
    }

    /// Construct a frozen list from `(weight, value)` pairs, computing each
    /// item's cumulative weight as the running total of the weights so far.
    ///
    /// Weights must be non-negative — binary search is undefined over a
    /// non-monotone prefix-sum sequence — and their total must fit the
    /// weight type.
    pub fn init(pairs: Vec<(i64, String)>) -> (r: Self)
        requires
            nonneg_weights(items_of_pairs(pairs@)),
            sum_weights(items_of_pairs(pairs@)) <= i64::MAX,
        ensures
            frozen_pairs(r@) == items_of_pairs(pairs@),
            frozen_wf(r@),
    {
        let ghost items = items_of_pairs(pairs@);
        let n = pairs.len();
        let mut data: Vec<FrozenWeightedItem> = Vec::new();
        let mut cw: i64 = 0;
        let mut i: usize = 0;
        while i < n
            invariant
                items == items_of_pairs(pairs@),
                nonneg_weights(items),
                sum_weights(items) <= i64::MAX,
                n == pairs@.len(),
                items.len() == n,
                i <= n,
                data@.len() == i,
                cw == sum_weights(items.take(i as int)),
                frozen_pairs(data@) == items.take(i as int),
                frozen_wf(data@),
            decreases n - i,
        {
            proof {
                lemma_sum_take_succ(items, i as int);
                lemma_prefix_in_range(items, i + 1);
            }
            let w = pairs[i].0;
            let v = pairs[i].1.clone();
            cw = cw + w;
            data.push(FrozenWeightedItem { cumulative_weight: cw, weight: w, value: v });
            proof {
                assert(frozen_pairs(data@) =~= items.take(i + 1));
                assert forall|k: int|
                    0 <= k < data@.len() implies (#[trigger] data@[k]).weight >= 0
                    && data@[k].cumulative_weight == sum_weights(frozen_pairs(data@).take(k + 1)) by {
                    if k < i {
                        assert(frozen_pairs(data@).take(k + 1) =~= items.take(i as int).take(k + 1));
                        assert(items.take(i as int).take(k + 1) =~= items.take(k + 1));
                        assert(items.take(i as int) =~= frozen_pairs(data@.take(i as int)));
                    } else {
                        assert(frozen_pairs(data@).take(k + 1) =~= items.take(i + 1));
                    }
                }
            }
            i += 1;
        }
        proof {
            assert(items.take(n as int) =~= items);
        }
        FrozenWeightedList { data }
    }
}

// == PROPERTIES == //
impl FrozenWeightedList {
    /// The weighted length of the list: the total weight of all items, read
    /// off the last item's cumulative weight.
    pub fn len(&self) -> (r: i64)
        ensures
            r == sum_weights(frozen_pairs(self@)),
    {
        proof {
            use_type_invariant(&*self);
            lemma_sum_take_all(frozen_pairs(self@));
        }
        let n = self.data.len();
        if n == 0 {
            0
        } else {
            self.data[n - 1].c_weight()
        }
    }

    /// How many items are in the list.
    pub fn total_values(&self) -> (r: usize)
        ensures
            r == self@.len(),
    {
        self.data.len()
    }

    /// Does the list contain no items?
    pub fn is_empty(&self) -> (r: bool)
        ensures
            r <==> self@.len() == 0,
    {
        self.data.is_empty()
    }

    /// Is the list non-empty with every item's weight equal to `0`?
    pub fn is_zero(&self) -> (r: bool)
        ensures
            r <==> (self@.len() > 0 && forall|k: int| 0 <= k < self@.len() ==> self@[k].weight == 0),
    {
        if self.data.is_empty() {
            return false;
        }
        let mut i: usize = 0;
        while i < self.data.len()
            invariant
                i <= self@.len(),
                forall|k: int| 0 <= k < i ==> self@[k].weight == 0,
            decreases self@.len() - i,
        {
            if self.data[i].weight != 0 {
                return false;
            }
            i += 1;
        }
        true
    }

    /// A reference to the underlying vector of items.
    pub fn items(&self) -> (r: &Vec<FrozenWeightedItem>)
        ensures
            r@ == self@,
    {
        &self.data
    }

    /// The underlying vector of items, by value.
    pub fn into_items(self) -> (r: Vec<FrozenWeightedItem>)
        ensures
            r@ == self@,
    {
        self.data
    }

    /// Thaw the list: drop the cumulative weights, leaving the plain
    /// weighted list with the same items.
    pub fn into_weighted_list(self) -> (r: WeightedList)
        ensures
            r@ == frozen_pairs(self@),
    {
        let ghost s = self@;
        let mut items = self.into_items();
        let mut out: Vec<WeightedItem> = Vec::new();
        let n = items.len();
        let mut i: usize = 0;
        while i < n
            invariant
                items@ == s,
                n == s.len(),
                i <= n,
                out@ == frozen_pairs(s.take(i as int)),
            decreases n - i,
        {
            let item = items[i].clone();
            out.push(item.to_weighted_item());
            proof {
                assert(s.take(i + 1) =~= s.take(i as int).push(s[i as int]));
                assert(out@ =~= frozen_pairs(s.take(i + 1)));
            }
            i += 1;
        }
        proof {
            assert(s.take(s.len() as int) =~= s);
        }
        WeightedList::from_items(out)
    }
}

// == INDEXING == //
impl FrozenWeightedList {
    /// Translate `weighted_index` to its physical position by binary search
    /// over the cumulative weights: the probe whose half-open cumulative
    /// interval contains the weighted index is the answer.
    ///
    /// Callers must pass a weighted index within `0..len()`; this resolves
    /// to the same position as the linear scan of the mutable list.
    #[allow(non_snake_case)]
    pub fn _binary_unweight_index_(&self, weighted_index: i64) -> (r: usize)
        requires
            0 <= weighted_index < sum_weights(frozen_pairs(self@)),
        ensures
            r == lookup_pos(frozen_pairs(self@), weighted_index as int),
    {
        let ghost s = frozen_pairs(self@);
        let ghost wi = weighted_index as int;
        let ghost pos = lookup_pos(s, wi);
        proof {
            use_type_invariant(&*self);
            lemma_lookup_found(s, wi);
            lemma_lookup_props(s, wi);
        }
        let n = self.data.len();
        let mut left_idx: usize = 0;
        let mut right_idx: usize = n - 1;
        while left_idx <= right_idx
            invariant
                frozen_wf(self@),
                s == frozen_pairs(self@),
                wi == weighted_index as int,
                pos == lookup_pos(s, wi),
                0 <= wi < sum_weights(s),
                n == self@.len(),
                left_idx <= pos <= right_idx < n,
            decreases right_idx - left_idx,
        {
            proof {
                lemma_lookup_props(s, wi);
            }
            let pivot_idx = left_idx + (right_idx - left_idx) / 2;
            proof {
                lemma_sum_take_succ(s, pivot_idx as int);
                lemma_prefix_in_range(s, pivot_idx as int);
                assert(s[pivot_idx as int].weight == self@[pivot_idx as int].weight);
            }
            let cand = &self.data[pivot_idx];
            let weight = cand.weight();
            let c_weight = cand.c_weight();
            if c_weight > weighted_index && weighted_index >= c_weight - weight {
                proof {
                    lemma_lookup_at(s, wi, pivot_idx as int);
                }
                return pivot_idx;
            }
            if weighted_index < c_weight {
                // the probe's whole interval lies beyond the weighted index
                proof {
                    assert(sum_weights(s.take(pivot_idx as int)) > wi);
                    if pos >= pivot_idx {
                        assert(sum_weights(s.take((pivot_idx - 1) + 1)) <= wi);
                    }
                }
                right_idx = pivot_idx - 1;
            } else {
                // the probe's whole interval lies before the weighted index
                proof {
                    if pos <= pivot_idx {
                        lemma_prefix_monotone(s, pos + 1, pivot_idx + 1);
                    }
                }
                left_idx = pivot_idx + 1;
            }
        }
        proof {
            assert(false);
        }
        0
    }

    /// A reference to the item at `weighted_index`.
    ///
    /// Callers must pass a weighted index within `0..len()`. Use
    /// [`Self::get`] when that is not known in advance.
    pub fn item_at(&self, weighted_index: i64) -> (r: &FrozenWeightedItem)
        requires
            0 <= weighted_index < sum_weights(frozen_pairs(self@)),
        ensures
            r == self@[lookup_pos(frozen_pairs(self@), weighted_index as int)],
    {
        proof {
            use_type_invariant(&*self);
            lemma_lookup_found(frozen_pairs(self@), weighted_index as int);
            lemma_lookup_props(frozen_pairs(self@), weighted_index as int);
        }
        let i = self._binary_unweight_index_(weighted_index);
        &self.data[i]
    }

    /// A reference to the item at `weighted_index`, or `None` when the
    /// weighted index lies outside `0..len()`.
    pub fn get(&self, weighted_index: i64) -> (r: Option<&FrozenWeightedItem>)
        ensures
            match r {
                Some(item) => 0 <= weighted_index < sum_weights(frozen_pairs(self@)) && item
                    == self@[lookup_pos(frozen_pairs(self@), weighted_index as int)],
                None => !(0 <= weighted_index < sum_weights(frozen_pairs(self@))),
            },
    {
        if weighted_index < 0 {
            return None;
        }
        if weighted_index >= self.len() {
            return None;
        }
        Some(self.item_at(weighted_index))
    }
}

} // verus!
