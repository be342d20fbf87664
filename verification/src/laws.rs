//! The laws the two list types obey, stated and proved once for all inputs:
//! the frozen binary-searched lookup agrees with the mutable linear lookup
//! over equivalent contents, and merging duplicates yields a value-unique
//! list that further merging leaves unchanged.

use vstd::prelude::*;

use crate::frozen_weighted_list::{frozen_pairs, FrozenWeightedList};
use crate::model::{
    first_value_match, has_lookup, lemma_first_value_match_props, lemma_lookup_found,
    lemma_lookup_same_weights, lemma_merge_one_sum, lemma_sum_same_weights, lemma_sum_weights_push,
    lookup_pos, merge_all, merge_all_fits, merge_one, merge_one_fits, sum_weights, value_views,
    values_distinct,
};
use crate::weighted_item::WeightedItem;
use crate::weighted_list::WeightedList;

verus! {

/// Indexing equivalence: over equivalent contents — the same weights and
/// value readings, position by position — the frozen list's binary-searched
/// lookup and the mutable list's linear lookup address the same physical
/// position for every in-bounds weighted index, so the items they return
/// carry identical values.
pub proof fn lemma_indexing_equivalence(frozen: FrozenWeightedList, list: WeightedList, wi: int)
    requires
        frozen@.len() == list@.len(),
        forall|k: int|
            0 <= k < list@.len() ==> (#[trigger] frozen@[k]).weight == list@[k].weight
                && frozen@[k].value@ == list@[k].value@,
        0 <= wi < sum_weights(list@),
    ensures
        sum_weights(frozen_pairs(frozen@)) == sum_weights(list@),
        has_lookup(list@, wi),
        lookup_pos(frozen_pairs(frozen@), wi) == lookup_pos(list@, wi),
        frozen@[lookup_pos(frozen_pairs(frozen@), wi)].value@ == list@[lookup_pos(
            list@,
            wi,
        )].value@,
{
    let fp = frozen_pairs(frozen@);
    assert(fp.len() == list@.len());
    assert forall|k: int| 0 <= k < fp.len() implies (#[trigger] fp[k]).weight == list@[k].weight
        && fp[k].value@ == list@[k].value@ by {
        assert(fp[k].weight == frozen@[k].weight);
    }
    lemma_sum_same_weights(fp, list@);
    lemma_lookup_same_weights(fp, list@, wi);
    lemma_lookup_found(list@, wi);
    let p = lookup_pos(list@, wi);
    crate::model::lemma_lookup_props(list@, wi);
    assert(frozen@[p].weight == list@[p].weight);
    assert(frozen@[p].value@ == list@[p].value@);
}

/// Merging an item into a value-unique list keeps it value-unique.
pub proof fn lemma_merge_one_distinct(acc: Seq<WeightedItem>, it: WeightedItem)
    requires
        values_distinct(acc),
    ensures
        values_distinct(merge_one(acc, it)),
{
    lemma_first_value_match_props(acc, it.value@);
    let j = first_value_match(acc, it.value@);
    let out = merge_one(acc, it);
    if j < acc.len() {
        assert forall|a: int, b: int| 0 <= a < b < out.len() implies out[a].value@
            != out[b].value@ by {
            assert(out[a].value@ == acc[a].value@);
            assert(out[b].value@ == acc[b].value@);
        }
    } else {
        assert forall|a: int, b: int| 0 <= a < b < out.len() implies out[a].value@
            != out[b].value@ by {
            if b < acc.len() {
            } else {
                assert(out[b].value@ == it.value@);
                assert(acc[a].value@ != it.value@);
            }
        }
    }
}

/// Merging any items into a value-unique accumulator keeps it value-unique.
/// In particular, merging a list's duplicates away yields a list in which
/// every value occurs exactly once.
pub proof fn lemma_merge_all_distinct(acc: Seq<WeightedItem>, items: Seq<WeightedItem>)
    requires
        values_distinct(acc),
    ensures
        values_distinct(merge_all(acc, items)),
    decreases items.len(),
{
    if items.len() > 0 {
        lemma_merge_one_distinct(acc, items[0]);
        lemma_merge_all_distinct(merge_one(acc, items[0]), items.drop_first());
    }
}

/// Merging items whose values are all distinct, and all absent from the
/// accumulator, only appends them — in particular it performs no weight
/// addition, so it needs no overflow guard.
pub proof fn lemma_merge_all_fresh(acc: Seq<WeightedItem>, items: Seq<WeightedItem>)
    requires
        values_distinct(items),
        forall|a: int, b: int|
            0 <= a < acc.len() && 0 <= b < items.len() ==> (#[trigger] acc[a]).value@ != (
            #[trigger] items[b]).value@,
    ensures
        merge_all(acc, items) == acc + items,
        merge_all_fits(acc, items),
    decreases items.len(),
{
    if items.len() == 0 {
        assert(merge_all(acc, items) == acc);
        assert(acc + items =~= acc);
    } else {
        let it = items[0];
        lemma_first_value_match_props(acc, it.value@);
        if first_value_match(acc, it.value@) < acc.len() {
            assert(acc[first_value_match(acc, it.value@)].value@ == it.value@);
        }
        assert(first_value_match(acc, it.value@) == acc.len());
        assert(merge_one(acc, it) == acc.push(it));
        let acc2 = acc.push(it);
        let d = items.drop_first();
        assert forall|a: int, b: int|
            0 <= a < acc2.len() && 0 <= b < d.len() implies (#[trigger] acc2[a]).value@ != (
        #[trigger] d[b]).value@ by {
            assert(d[b] == items[b + 1]);
            if a < acc.len() {
                assert(acc2[a] == acc[a]);
            } else {
                assert(acc2[a] == items[0]);
            }
        }
        assert forall|a: int, b: int| 0 <= a < b < d.len() implies d[a].value@ != d[b].value@ by {
            assert(d[a] == items[a + 1]);
            assert(d[b] == items[b + 1]);
        }
        lemma_merge_all_fresh(acc2, d);
        assert(acc.push(it) + d =~= acc + items);
    }
}

/// Merge idempotence: merging a list's duplicates away once is as good as
/// doing it twice — the deduplicated list is a fixed point of merging. The
/// second pass also needs no overflow guard, so a second
/// [`crate::WeightedList::merge_duplicates`] call is always permitted.
pub proof fn lemma_merge_duplicates_idempotent(items: Seq<WeightedItem>)
    ensures
        merge_all(
            Seq::<WeightedItem>::empty(),
            merge_all(Seq::<WeightedItem>::empty(), items),
        ) == merge_all(Seq::<WeightedItem>::empty(), items),
        merge_all_fits(Seq::<WeightedItem>::empty(), merge_all(Seq::<WeightedItem>::empty(), items)),
{
    let once = merge_all(Seq::<WeightedItem>::empty(), items);
    lemma_merge_all_distinct(Seq::<WeightedItem>::empty(), items);
    lemma_merge_all_fresh(Seq::<WeightedItem>::empty(), once);
    assert(Seq::<WeightedItem>::empty() + once =~= once);
}

/// Merging preserves the total weight: the weights of merged-away duplicates
/// are collected, never lost.
pub proof fn lemma_merge_all_sum(acc: Seq<WeightedItem>, items: Seq<WeightedItem>)
    requires
        merge_all_fits(acc, items),
    ensures
        sum_weights(merge_all(acc, items)) == sum_weights(acc) + sum_weights(items),
    decreases items.len(),
{
    if items.len() > 0 {
        lemma_merge_one_sum(acc, items[0]);
        lemma_merge_all_sum(merge_one(acc, items[0]), items.drop_first());
    }
}

/// Every value of the merged list was a value of the accumulator or of the
/// merged items, and none is lost.
pub proof fn lemma_merge_all_views(acc: Seq<WeightedItem>, items: Seq<WeightedItem>)
    ensures
        forall|v: Seq<char>|
            #[trigger] value_views(merge_all(acc, items)).contains(v) <==> (value_views(
                acc,
            ).contains(v) || value_views(items).contains(v)),
    decreases items.len(),
{
    if items.len() == 0 {
        assert forall|v: Seq<char>|
            #[trigger] value_views(merge_all(acc, items)).contains(v) <==> (value_views(
            acc,
        ).contains(v) || value_views(items).contains(v)) by {
            if value_views(items).contains(v) {
                let k = choose|k: int| 0 <= k < items.len() && items[k].value@ == v;
            }
        }
    } else {
        let it = items[0];
        let acc2 = merge_one(acc, it);
        lemma_first_value_match_props(acc, it.value@);
        lemma_merge_all_views(acc2, items.drop_first());
        assert forall|v: Seq<char>|
            #[trigger] value_views(acc2).contains(v) <==> (value_views(acc).contains(v)
            || it.value@ == v) by {
            let j = first_value_match(acc, it.value@);
            if value_views(acc2).contains(v) {
                let k = choose|k: int| 0 <= k < acc2.len() && acc2[k].value@ == v;
                if j < acc.len() {
                    assert(acc2[k].value@ == acc[k].value@);
                } else {
                    if k < acc.len() {
                        assert(acc2[k] == acc[k]);
                    }
                }
            }
            if value_views(acc).contains(v) {
                let k = choose|k: int| 0 <= k < acc.len() && acc[k].value@ == v;
                assert(acc2[k].value@ == v);
            }
            if it.value@ == v {
                if j < acc.len() {
                    assert(acc2[j].value@ == v);
                } else {
                    assert(acc2[acc.len() as int].value@ == v);
                }
            }
        }
        assert forall|v: Seq<char>|
            #[trigger] value_views(items).contains(v) <==> (it.value@ == v || value_views(
            items.drop_first(),
        ).contains(v)) by {
            if value_views(items).contains(v) {
                let k = choose|k: int| 0 <= k < items.len() && items[k].value@ == v;
                if k > 0 {
                    assert(items.drop_first()[k - 1].value@ == v);
                }
            }
            if value_views(items.drop_first()).contains(v) {
                let k = choose|k: int|
                    0 <= k < items.drop_first().len() && items.drop_first()[k].value@ == v;
                assert(items[k + 1].value@ == v);
            }
            if it.value@ == v {
                assert(items[0].value@ == v);
            }
        }
        assert forall|v: Seq<char>|
            #[trigger] value_views(merge_all(acc, items)).contains(v) <==> (value_views(
            acc,
        ).contains(v) || value_views(items).contains(v)) by {
            assert(merge_all(acc, items) == merge_all(acc2, items.drop_first()));
            assert(value_views(merge_all(acc2, items.drop_first())).contains(v) <==> (value_views(
                acc2,
            ).contains(v) || value_views(items.drop_first()).contains(v)));
        }
    }
}

} // verus!
