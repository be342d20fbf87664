//! Merging items into a [`WeightedList`] by value equality: equal values
//! collect their weights on one entry instead of occupying several.

use vstd::prelude::*;

use crate::model::{
    first_value_match, lemma_first_value_match_at, lemma_first_value_match_props,
    lemma_merge_all_push, merge_all, merge_all_fits, merge_one, merge_one_fits,
};
use crate::weighted_item::WeightedItem;
use crate::weighted_list::WeightedList;

verus! {

impl WeightedList {
    /// Merge an item into the list: when an item with an equal value already
    /// exists, add the new weight onto the first such item; otherwise append
    /// the new item.
    pub fn merge_item(&mut self, item: WeightedItem)
        requires
            merge_one_fits(old(self)@, item),
        ensures
            final(self)@ == merge_one(old(self)@, item),
    {
        let ghost s = self@;
        let n = self.total_values();
        let mut i: usize = 0;
        while i < n
            invariant
                s == old(self)@,
                self@ == s,
                n == s.len(),
                i <= n,
                merge_one_fits(s, item),
                forall|k: int| 0 <= k < i ==> s[k].value@ != item.value@,
            decreases n - i,
        {
            let items = self.items();
            if items[i].value == item.value {
                proof {
                    lemma_first_value_match_at(s, item.value@, i as int);
                }
                let weight = items[i].weight + item.weight;
                let value = items[i].value.clone();
                self.set_item(i, WeightedItem { weight, value });
                return ;
            }
            i += 1;
        }
        proof {
            lemma_first_value_match_props(s, item.value@);
            assert(first_value_match(s, item.value@) == s.len());
        }
        self.push_item(item);
    }

    /// Merge a new item with `weight` and `value` into the list.
    ///
    /// See [`Self::merge_item`] for the merge rule.
    pub fn merge_new_item(&mut self, weight: i64, value: String)
        requires
            merge_one_fits(old(self)@, WeightedItem { weight, value }),
        ensures
            final(self)@ == merge_one(old(self)@, WeightedItem { weight, value }),
    {
        self.merge_item(WeightedItem { weight, value })
    }

    /// Merge a new item with `value` and a weight of `1` into the list.
    ///
    /// See [`Self::merge_item`] for the merge rule.
    pub fn merge_value(&mut self, value: String)
        requires
            merge_one_fits(old(self)@, WeightedItem { weight: 1i64, value }),
        ensures
            final(self)@ == merge_one(old(self)@, WeightedItem { weight: 1i64, value }),
    {
        self.merge_item(WeightedItem { weight: 1, value })
    }

    /// Merge every item of `other` into `self`, in order.
    ///
    /// See [`Self::merge_item`] for the merge rule.
    pub fn merge_with(&mut self, other: WeightedList)
        requires
            merge_all_fits(old(self)@, other@),
        ensures
            final(self)@ == merge_all(old(self)@, other@),
    {
        let ghost acc0 = self@;
        let ghost src = other@;
        let items = other.into_items();
        let n = items.len();
        proof {
            assert(src.skip(0) =~= src);
            assert(src.take(0) =~= Seq::<WeightedItem>::empty());
        }
        let mut i: usize = 0;
        while i < n
            invariant
                acc0 == old(self)@,
                items@ == src,
                n == src.len(),
                i <= n,
                self@ == merge_all(acc0, src.take(i as int)),
                merge_all_fits(self@, src.skip(i as int)),
            decreases n - i,
        {
            proof {
                assert(src.skip(i as int)[0] == src[i as int]);
                assert(src.skip(i as int).drop_first() =~= src.skip(i + 1));
                lemma_merge_all_push(acc0, src.take(i as int), src[i as int]);
                assert(src.take(i + 1) =~= src.take(i as int).push(src[i as int]));
            }
            let item = items[i].clone();
            self.merge_item(item);
            i += 1;
        }
        proof {
            assert(src.take(src.len() as int) =~= src);
        }
    }

    /// Merge every duplicated value in the list into a single entry carrying
    /// the summed weight, keeping the order in which each distinct value
    /// first occurs.
    pub fn merge_duplicates(&mut self)
        requires
            merge_all_fits(Seq::<WeightedItem>::empty(), old(self)@),
        ensures
            final(self)@ == merge_all(Seq::<WeightedItem>::empty(), old(self)@),
    {
        let mut drained = WeightedList::new();
        core::mem::swap(self, &mut drained);
        self.merge_with(drained);
    }
}

} // verus!
