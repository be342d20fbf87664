//! Sorting a [`WeightedList`] by weight: a clone is rebuilt in ascending
//! weight order by repeatedly extracting a minimum-weight item.

use vstd::multiset::Multiset;
use vstd::prelude::*;

use crate::weighted_item::WeightedItem;
use crate::weighted_list::WeightedList;

verus! {

broadcast use vstd::seq_lib::group_to_multiset_ensures;

impl WeightedList {
    /// Return a clone of the list with items sorted in ascending order of
    /// weight: the same items, reordered. The relative order of items with
    /// equal weights is left unspecified.
    pub fn sorted(&self) -> (r: Self)
        ensures
            r@.to_multiset() == self@.to_multiset(),
            r@.len() == self@.len(),
            forall|a: int, b: int| 0 <= a <= b < r@.len() ==> r@[a].weight <= r@[b].weight,
    {
        let mut rest = self.clone();
        let mut out: Vec<WeightedItem> = Vec::new();
        proof {
            assert(out@.to_multiset().add(rest@.to_multiset()) =~= self@.to_multiset());
        }
        while rest.total_values() > 0
            invariant
                out@.to_multiset().add(rest@.to_multiset()) == self@.to_multiset(),
                out@.len() + rest@.len() == self@.len(),
                forall|a: int, b: int| 0 <= a <= b < out@.len() ==> out@[a].weight <= out@[b].weight,
                forall|a: int, b: int|
                    0 <= a < out@.len() && 0 <= b < rest@.len() ==> (#[trigger] out@[a]).weight <= (
                    #[trigger] rest@[b]).weight,
            decreases rest@.len(),
        {
            let ghost rest0 = rest@;
            let ghost out0 = out@;
            let n = rest.total_values();
            let mut mi: usize = 0;
            let mut i: usize = 1;
            while i < n
                invariant
                    rest@ == rest0,
                    n == rest0.len(),
                    mi < n,
                    i <= n,
                    forall|j: int| 0 <= j < i ==> rest0[mi as int].weight <= rest0[j].weight,
                decreases n - i,
            {
                if rest.items()[i].weight < rest.items()[mi].weight {
                    mi = i;
                }
                i += 1;
            }
            let item = rest.remove_phys(mi);
            out.push(item);
            proof {
                assert(rest0.contains(rest0[mi as int]));
                assert(rest0.to_multiset().count(item) > 0);
                assert(rest@.to_multiset() =~= rest0.to_multiset().remove(item));
                assert(out@.to_multiset() =~= out0.to_multiset().insert(item));
                assert(out@.to_multiset().add(rest@.to_multiset()) =~= out0.to_multiset().add(
                    rest0.to_multiset(),
                ));
                assert forall|a: int, b: int|
                    0 <= a < out@.len() && 0 <= b < rest@.len() implies (#[trigger] out@[a]).weight
                    <= (#[trigger] rest@[b]).weight by {
                    assert(rest@[b] == if b < mi {
                        rest0[b]
                    } else {
                        rest0[b + 1]
                    });
                    if a < out0.len() {
                        assert(out@[a] == out0[a]);
                    } else {
                        assert(out@[a] == item);
                    }
                }
                assert forall|a: int, b: int|
                    0 <= a <= b < out@.len() implies out@[a].weight <= out@[b].weight by {
                    if b == out@.len() - 1 && a < b {
                        assert(out0[a].weight <= rest0[mi as int].weight);
                    }
                }
            }
        }
        proof {
            assert(rest@.to_multiset() =~= Multiset::<WeightedItem>::empty());
            assert(out@.to_multiset().add(Multiset::<WeightedItem>::empty()) =~= out@.to_multiset());
        }
        WeightedList::from_items(out)
    }
}

} // verus!
