//! Weighted indexing for [`WeightedList`]: translating a weighted index into
//! a physical position by a linear scan of the running weight total, and the
//! item accessors and take operations built on that translation.

use vstd::prelude::*;

use crate::model::{
    has_lookup, lemma_lookup_first, lemma_lookup_none, lemma_lookup_props, lemma_sum_fits_i128,
    lemma_sum_take_succ, lookup_pos, sum_weights,
};
use crate::weighted_item::WeightedItem;
use crate::weighted_list::WeightedList;

verus! {

impl WeightedList {
    /// Translate `weighted_index` to the physical position of the first item
    /// whose running weight total exceeds it. When no running total does,
    /// return the number of items instead of failing; inserting there
    /// appends.
    #[allow(non_snake_case)]
    pub fn _unweight_index_nopanic_(&self, weighted_index: i64) -> (r: usize)
        ensures
            r == lookup_pos(self@, weighted_index as int),
    {
        let ghost s = self@;
        let ghost wi = weighted_index as int;
        let n = self.total_values();
        let mut t: i128 = 0;
        let mut i: usize = 0;
        while i < n
            invariant
                s == self@,
                wi == weighted_index as int,
                n == s.len(),
                i <= n,
                t == sum_weights(s.take(i as int)),
                forall|j: int| 0 <= j < i ==> sum_weights(#[trigger] s.take(j + 1)) <= wi,
            decreases n - i,
        {
            proof {
                lemma_sum_take_succ(s, i as int);
                assert(s.take(i + 1).len() == i + 1);
                lemma_sum_fits_i128(s.take(i + 1));
            }
            let w = self.items()[i].weight;
            t = t + (w as i128);
            if t > (weighted_index as i128) {
                proof {
                    lemma_lookup_first(s, wi, i as int);
                }
                return i;
            }
            i += 1;
        }
        proof {
            lemma_lookup_none(s, wi);
        }
        n
    }

    /// Translate `weighted_index` to its physical position.
    ///
    /// Callers must address an item: some running weight total has to exceed
    /// `weighted_index`. Use [`Self::_unweight_index_nopanic_`] or
    /// [`Self::get`] when that is not known in advance.
    #[allow(non_snake_case)]
    pub fn _unweight_index_(&self, weighted_index: i64) -> (r: usize)
        requires
            has_lookup(self@, weighted_index as int),
        ensures
            r == lookup_pos(self@, weighted_index as int),
    {
        self._unweight_index_nopanic_(weighted_index)
    }

    /// A reference to the item at `weighted_index`.
    ///
    /// Callers must address an item: some running weight total has to exceed
    /// `weighted_index`. Use [`Self::get`] when that is not known in advance.
    pub fn item_at(&self, weighted_index: i64) -> (r: &WeightedItem)
        requires
            has_lookup(self@, weighted_index as int),
        ensures
            r == self@[lookup_pos(self@, weighted_index as int)],
    {
        let i = self._unweight_index_(weighted_index);
        &self.items()[i]
    }

    /// A reference to the item at `weighted_index`, or `None` when the
    /// weighted index addresses nothing.
    pub fn get(&self, weighted_index: i64) -> (r: Option<&WeightedItem>)
        ensures
            match r {
                Some(item) => has_lookup(self@, weighted_index as int) && item == self@[lookup_pos(
                    self@,
                    weighted_index as int,
                )],
                None => !has_lookup(self@, weighted_index as int),
            },
    {
        let i = self._unweight_index_nopanic_(weighted_index);
        if i < self.total_values() {
            Some(&self.items()[i])
        } else {
            None
        }
    }

    /// Remove the entire item at `weighted_index` and return it.
    ///
    /// Callers must address an item: some running weight total has to exceed
    /// `weighted_index`.
    pub fn remove_at(&mut self, weighted_index: i64) -> (r: WeightedItem)
        requires
            has_lookup(old(self)@, weighted_index as int),
        ensures
            r == old(self)@[lookup_pos(old(self)@, weighted_index as int)],
            final(self)@ == old(self)@.remove(lookup_pos(old(self)@, weighted_index as int)),
    {
        let i = self._unweight_index_(weighted_index);
        self.remove_phys(i)
    }

    /// Insert an item at `weighted_index`. When the weighted index addresses
    /// nothing (it is at or beyond the total weight), the item is appended to
    /// the end rather than failing.
    pub fn insert_item(&mut self, weighted_index: i64, item: WeightedItem)
        ensures
            final(self)@ == old(self)@.insert(
                lookup_pos(old(self)@, weighted_index as int),
                item,
            ),
    {
        let i = self._unweight_index_nopanic_(weighted_index);
        proof {
            lemma_lookup_props(self@, weighted_index as int);
        }
        self.insert_phys(i, item);
    }

    /// Insert a new item built from a `(weight, value)` pair at
    /// `weighted_index`, appending when the weighted index addresses nothing.
    pub fn insert_new_item(&mut self, weighted_index: i64, pair: (i64, String))
        ensures
            final(self)@ == old(self)@.insert(
                lookup_pos(old(self)@, weighted_index as int),
                WeightedItem { weight: pair.0, value: pair.1 },
            ),
    {
        self.insert_item(weighted_index, WeightedItem { weight: pair.0, value: pair.1 });
    }

    /// Insert a new item with `value` and a weight of `1` at
    /// `weighted_index`, appending when the weighted index addresses nothing.
    pub fn insert_value(&mut self, weighted_index: i64, value: String)
        ensures
            final(self)@ == old(self)@.insert(
                lookup_pos(old(self)@, weighted_index as int),
                WeightedItem { weight: 1i64, value },
            ),
    {
        self.insert_item(weighted_index, WeightedItem { weight: 1, value });
    }

    /// Swap the items at weighted indices `left` and `right`.
    ///
    /// Callers must address items with both weighted indices.
    pub fn swap(&mut self, left: i64, right: i64)
        requires
            has_lookup(old(self)@, left as int),
            has_lookup(old(self)@, right as int),
        ensures
            ({
                let l = lookup_pos(old(self)@, left as int);
                let r = lookup_pos(old(self)@, right as int);
                final(self)@ == old(self)@.update(l, old(self)@[r]).update(r, old(self)@[l])
            }),
    {
        let l = self._unweight_index_(left);
        let r = self._unweight_index_(right);
        let left_item = self.items()[l].clone();
        let right_item = self.items()[r].clone();
        self.set_item(l, right_item);
        self.set_item(r, left_item);
        proof {
            if l == r {
                assert(final(self)@ =~= old(self)@.update(l as int, old(self)@[r as int]).update(
                    r as int,
                    old(self)@[l as int],
                ));
            }
        }
    }

    /// Decrement the weight of the item at `weighted_index` by `decrement`,
    /// removing the entire item when its weight falls to or below zero.
    /// Returns the item with its updated weight.
    ///
    /// Callers must address an item, and the decremented weight must stay
    /// within the weight type's range.
    pub fn take_by_at(&mut self, decrement: i64, weighted_index: i64) -> (r: WeightedItem)
        requires
            has_lookup(old(self)@, weighted_index as int),
            ({
                let k = lookup_pos(old(self)@, weighted_index as int);
                i64::MIN <= old(self)@[k].weight - decrement <= i64::MAX
            }),
        ensures
            ({
                let k = lookup_pos(old(self)@, weighted_index as int);
                let updated = WeightedItem {
                    weight: (old(self)@[k].weight - decrement) as i64,
                    value: old(self)@[k].value,
                };
                r == updated && if updated.weight <= 0 {
                    final(self)@ == old(self)@.remove(k)
                } else {
                    final(self)@ == old(self)@.update(k, updated)
                }
            }),
    {
        let i = self._unweight_index_(weighted_index);
        let weight = self.items()[i].weight - decrement;
        let value = self.items()[i].value.clone();
        let updated = WeightedItem { weight, value };
        if weight <= 0 {
            let removed = self.remove_phys(i);
            updated
        } else {
            let r = updated.clone();
            self.set_item(i, updated);
            r
        }
    }

    /// Decrement the weight of the item at `weighted_index` by `1`, removing
    /// the entire item when its weight falls to or below zero. Returns the
    /// item with its updated weight.
    pub fn take_one_at(&mut self, weighted_index: i64) -> (r: WeightedItem)
        requires
            has_lookup(old(self)@, weighted_index as int),
            old(self)@[lookup_pos(old(self)@, weighted_index as int)].weight - 1 >= i64::MIN,
        ensures
            ({
                let k = lookup_pos(old(self)@, weighted_index as int);
                let updated = WeightedItem {
                    weight: (old(self)@[k].weight - 1) as i64,
                    value: old(self)@[k].value,
                };
                r == updated && if updated.weight <= 0 {
                    final(self)@ == old(self)@.remove(k)
                } else {
                    final(self)@ == old(self)@.update(k, updated)
                }
            }),
    {
        self.take_by_at(1, weighted_index)
    }

    /// Remove the entire item at `weighted_index`, whatever its weight.
    pub fn take_entire_at(&mut self, weighted_index: i64) -> (r: WeightedItem)
        requires
            has_lookup(old(self)@, weighted_index as int),
        ensures
            r == old(self)@[lookup_pos(old(self)@, weighted_index as int)],
            final(self)@ == old(self)@.remove(lookup_pos(old(self)@, weighted_index as int)),
    {
        self.remove_at(weighted_index)
    }
}

} // verus!
