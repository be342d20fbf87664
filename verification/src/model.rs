//! The mathematical model shared by both list types: weight sums over item
//! sequences, and the translation of a weighted index into a physical
//! position.

use vstd::prelude::*;

use crate::weighted_item::WeightedItem;

verus! {

/// Sum of the weights of a sequence of items.
pub open spec fn sum_weights(s: Seq<WeightedItem>) -> int
    decreases s.len(),
{
    if s.len() == 0 {
        0
    } else {
        s[0].weight + sum_weights(s.drop_first())
    }
}

/// Every weight in the sequence is non-negative.
pub open spec fn nonneg_weights(s: Seq<WeightedItem>) -> bool {
    forall|k: int| 0 <= k < s.len() ==> s[k].weight >= 0
}

/// The total weight lies within the range of `i64`.
pub open spec fn sum_fits_i64(s: Seq<WeightedItem>) -> bool {
    i64::MIN <= sum_weights(s) <= i64::MAX
}

/// The physical position addressed by weighted index `wi`: the first
/// position whose running weight total exceeds `wi`, or `s.len()` when no
/// prefix total does. Items of non-positive weight span an empty interval of
/// weighted-index space and are never addressed.
pub open spec fn lookup_pos(s: Seq<WeightedItem>, wi: int) -> int
    decreases s.len(),
{
    if s.len() == 0 {
        0
    } else if s[0].weight > wi {
        0
    } else {
        1 + lookup_pos(s.drop_first(), wi - s[0].weight)
    }
}

/// A weighted index addresses an item exactly when some running total
/// exceeds it.
pub open spec fn has_lookup(s: Seq<WeightedItem>, wi: int) -> bool {
    lookup_pos(s, wi) < s.len()
}

pub proof fn lemma_sum_weights_push(s: Seq<WeightedItem>, it: WeightedItem)
    ensures
        sum_weights(s.push(it)) == sum_weights(s) + it.weight,
    decreases s.len(),
{
    if s.len() == 0 {
        assert(s.push(it).drop_first() =~= Seq::<WeightedItem>::empty());
        assert(sum_weights(s.push(it).drop_first()) == 0);
        assert(s.push(it)[0] == it);
    } else {
        assert(s.push(it).drop_first() =~= s.drop_first().push(it));
        lemma_sum_weights_push(s.drop_first(), it);
    }
}

/// Extending a prefix by one item adds that item's weight to the prefix sum.
pub proof fn lemma_sum_take_succ(s: Seq<WeightedItem>, k: int)
    requires
        0 <= k < s.len(),
    ensures
        sum_weights(s.take(k + 1)) == sum_weights(s.take(k)) + s[k].weight,
{
    assert(s.take(k + 1) =~= s.take(k).push(s[k]));
    lemma_sum_weights_push(s.take(k), s[k]);
}

/// The whole sequence is its own prefix.
pub proof fn lemma_sum_take_all(s: Seq<WeightedItem>)
    ensures
        sum_weights(s.take(s.len() as int)) == sum_weights(s),
{
    assert(s.take(s.len() as int) =~= s);
}

/// The total weight of `n` items lies within `n` copies of the `i64` range.
pub proof fn lemma_sum_bounds(s: Seq<WeightedItem>)
    ensures
        s.len() * (i64::MIN as int) <= sum_weights(s) <= s.len() * (i64::MAX as int),
    decreases s.len(),
{
    if s.len() == 0 {
    } else {
        lemma_sum_bounds(s.drop_first());
        assert(s.len() * (i64::MIN as int) == (s.len() - 1) * (i64::MIN as int) + i64::MIN) by (nonlinear_arith);
        assert(s.len() * (i64::MAX as int) == (s.len() - 1) * (i64::MAX as int) + i64::MAX) by (nonlinear_arith);
    }
}

/// With non-negative weights, prefix sums are monotone.
pub proof fn lemma_prefix_monotone(s: Seq<WeightedItem>, j: int, k: int)
    requires
        nonneg_weights(s),
        0 <= j <= k <= s.len(),
    ensures
        sum_weights(s.take(j)) <= sum_weights(s.take(k)),
    decreases k - j,
{
    if j < k {
        lemma_prefix_monotone(s, j, k - 1);
        lemma_sum_take_succ(s, k - 1);
    }
}

/// With non-negative weights, every prefix sum is non-negative and no prefix
/// sum exceeds the total.
pub proof fn lemma_prefix_in_range(s: Seq<WeightedItem>, k: int)
    requires
        nonneg_weights(s),
        0 <= k <= s.len(),
    ensures
        0 <= sum_weights(s.take(k)) <= sum_weights(s),
{
    assert(s.take(0) =~= Seq::<WeightedItem>::empty());
    lemma_prefix_monotone(s, 0, k);
    lemma_prefix_monotone(s, k, s.len() as int);
    lemma_sum_take_all(s);
}

/// What `lookup_pos` returns: a position no greater than the length; when an
/// item is found, the running total through it exceeds the weighted index,
/// and every earlier running total does not.
pub proof fn lemma_lookup_props(s: Seq<WeightedItem>, wi: int)
    ensures
        0 <= lookup_pos(s, wi) <= s.len(),
        lookup_pos(s, wi) < s.len() ==> sum_weights(s.take(lookup_pos(s, wi) + 1)) > wi,
        forall|j: int| 0 <= j < lookup_pos(s, wi) ==> sum_weights(#[trigger] s.take(j + 1)) <= wi,
    decreases s.len(),
{
    if s.len() == 0 {
    } else if s[0].weight > wi {
        assert(s.take(1) =~= seq![s[0]]);
        assert(sum_weights(seq![s[0]].drop_first()) == 0);
    } else {
        let d = s.drop_first();
        let wid = wi - s[0].weight;
        lemma_lookup_props(d, wid);
        let p = lookup_pos(d, wid);
        assert forall|j: int| 0 <= j <= d.len() implies sum_weights(#[trigger] s.take(j + 1)) == s[0].weight
            + sum_weights(d.take(j)) by {
            assert(s.take(j + 1).drop_first() =~= d.take(j));
            assert(s.take(j + 1)[0] == s[0]);
            assert(s.take(j + 1).len() == j + 1);
        }
        assert forall|j: int| 0 <= j < lookup_pos(s, wi) implies sum_weights(#[trigger] s.take(j + 1))
            <= wi by {
            if j == 0 {
                assert(s.take(1) =~= seq![s[0]]);
                assert(sum_weights(seq![s[0]].drop_first()) == 0);
            } else {
                assert(sum_weights(d.take((j - 1) + 1)) <= wid);
            }
        }
    }
}

/// A non-negative weighted index below the total weight always addresses an
/// item, whatever the signs of the individual weights.
pub proof fn lemma_lookup_found(s: Seq<WeightedItem>, wi: int)
    requires
        0 <= wi < sum_weights(s),
    ensures
        lookup_pos(s, wi) < s.len(),
    decreases s.len(),
{
    if s.len() == 0 {
    } else if s[0].weight > wi {
    } else {
        lemma_lookup_found(s.drop_first(), wi - s[0].weight);
    }
}

/// With non-negative weights, the position whose half-open prefix-sum
/// interval contains the weighted index is the lookup position.
pub proof fn lemma_lookup_at(s: Seq<WeightedItem>, wi: int, k: int)
    requires
        nonneg_weights(s),
        0 <= k < s.len(),
        sum_weights(s.take(k)) <= wi,
        sum_weights(s.take(k + 1)) > wi,
    ensures
        lookup_pos(s, wi) == k,
{
    lemma_lookup_props(s, wi);
    let p = lookup_pos(s, wi);
    if p < k {
        // the running total through p already exceeds wi, yet prefixes only
        // grow towards k
        lemma_prefix_monotone(s, p + 1, k);
    } else if p > k {
        assert(sum_weights(s.take(k + 1)) <= wi);
    }
}

/// What is left of a list truncated to weighted length `target`: items are
/// kept while their weights fit under `target`; the item straddling the
/// boundary keeps only the weight that fits; everything after is dropped.
pub open spec fn truncate_spec(s: Seq<WeightedItem>, target: int) -> Seq<WeightedItem>
    decreases s.len(),
{
    if s.len() == 0 {
        s
    } else if s[0].weight <= target {
        seq![s[0]] + truncate_spec(s.drop_first(), target - s[0].weight)
    } else if target > 0 {
        seq![WeightedItem { weight: target as i64, value: s[0].value }]
    } else {
        Seq::<WeightedItem>::empty()
    }
}

/// The total weight of at most `2^64` items fits in an `i128`.
pub proof fn lemma_sum_fits_i128(s: Seq<WeightedItem>)
    requires
        s.len() <= 0x1_0000_0000_0000_0000,
    ensures
        i128::MIN <= sum_weights(s) <= i128::MAX,
{
    lemma_sum_bounds(s);
    assert(s.len() * (i64::MIN as int) >= 0x1_0000_0000_0000_0000 * (i64::MIN as int))
        by (nonlinear_arith)
        requires
            s.len() <= 0x1_0000_0000_0000_0000,
    ;
    assert(s.len() * (i64::MAX as int) <= 0x1_0000_0000_0000_0000 * (i64::MAX as int))
        by (nonlinear_arith)
        requires
            s.len() <= 0x1_0000_0000_0000_0000,
    ;
}

/// How `Seq::filter` unfolds over `push`.
pub proof fn lemma_filter_push(s: Seq<WeightedItem>, p: spec_fn(WeightedItem) -> bool, x: WeightedItem)
    ensures
        s.push(x).filter(p) == if p(x) {
            s.filter(p).push(x)
        } else {
            s.filter(p)
        },
{
    reveal(Seq::filter);
    assert(s.push(x).drop_last() =~= s);
    assert(s.push(x).last() == x);
}

/// The first position whose running total exceeds the weighted index is the
/// lookup position, whatever the signs of the weights.
pub proof fn lemma_lookup_first(s: Seq<WeightedItem>, wi: int, k: int)
    requires
        0 <= k < s.len(),
        sum_weights(s.take(k + 1)) > wi,
        forall|j: int| 0 <= j < k ==> sum_weights(#[trigger] s.take(j + 1)) <= wi,
    ensures
        lookup_pos(s, wi) == k,
    decreases s.len(),
{
    assert(s.take(1) =~= seq![s[0]]);
    assert(sum_weights(seq![s[0]].drop_first()) == 0);
    if k == 0 {
    } else {
        let d = s.drop_first();
        assert forall|j: int| 0 <= j <= d.len() implies sum_weights(#[trigger] d.take(j)) == sum_weights(
            s.take(j + 1),
        ) - s[0].weight by {
            assert(s.take(j + 1).drop_first() =~= d.take(j));
            assert(s.take(j + 1)[0] == s[0]);
            assert(s.take(j + 1).len() == j + 1);
        }
        assert(sum_weights(s.take(0int + 1)) <= wi);
        assert forall|j: int| 0 <= j < k - 1 implies sum_weights(#[trigger] d.take(j + 1)) <= wi
            - s[0].weight by {
            assert(sum_weights(s.take((j + 1) + 1)) <= wi);
        }
        assert(sum_weights(d.take((k - 1) + 1)) == sum_weights(s.take(k + 1)) - s[0].weight);
        lemma_lookup_first(d, wi - s[0].weight, k - 1);
    }
}

/// When no running total exceeds the weighted index, nothing is addressed.
pub proof fn lemma_lookup_none(s: Seq<WeightedItem>, wi: int)
    requires
        forall|j: int| 0 <= j < s.len() ==> sum_weights(#[trigger] s.take(j + 1)) <= wi,
    ensures
        lookup_pos(s, wi) == s.len(),
    decreases s.len(),
{
    if s.len() > 0 {
        assert(s.take(1) =~= seq![s[0]]);
        assert(sum_weights(seq![s[0]].drop_first()) == 0);
        assert(sum_weights(s.take(0int + 1)) <= wi);
        let d = s.drop_first();
        assert forall|j: int| 0 <= j < d.len() implies sum_weights(#[trigger] d.take(j + 1)) <= wi
            - s[0].weight by {
            assert(s.take((j + 1) + 1).drop_first() =~= d.take(j + 1));
            assert(s.take((j + 1) + 1)[0] == s[0]);
            assert(s.take((j + 1) + 1).len() == j + 2);
            assert(sum_weights(s.take((j + 1) + 1)) <= wi);
        }
        lemma_lookup_none(d, wi - s[0].weight);
    }
}

/// The first position holding an item whose value reads as `v`, or `s.len()`
/// when no item does.
pub open spec fn first_value_match(s: Seq<WeightedItem>, v: Seq<char>) -> int
    decreases s.len(),
{
    if s.len() == 0 {
        0
    } else if s[0].value@ == v {
        0
    } else {
        1 + first_value_match(s.drop_first(), v)
    }
}

/// Merging one item: when an item with an equal value exists, the new weight
/// is added onto the first such item; otherwise the new item is appended.
pub open spec fn merge_one(s: Seq<WeightedItem>, it: WeightedItem) -> Seq<WeightedItem> {
    let j = first_value_match(s, it.value@);
    if j < s.len() {
        s.update(j, WeightedItem { weight: (s[j].weight + it.weight) as i64, value: s[j].value })
    } else {
        s.push(it)
    }
}

/// The weight addition performed by one merge stays within `i64`.
pub open spec fn merge_one_fits(s: Seq<WeightedItem>, it: WeightedItem) -> bool {
    let j = first_value_match(s, it.value@);
    j < s.len() ==> i64::MIN <= s[j].weight + it.weight <= i64::MAX
}

/// Merging a sequence of items into an accumulator, left to right.
pub open spec fn merge_all(acc: Seq<WeightedItem>, items: Seq<WeightedItem>) -> Seq<WeightedItem>
    decreases items.len(),
{
    if items.len() == 0 {
        acc
    } else {
        merge_all(merge_one(acc, items[0]), items.drop_first())
    }
}

/// Every weight addition performed while merging `items` into `acc` stays
/// within `i64`.
pub open spec fn merge_all_fits(acc: Seq<WeightedItem>, items: Seq<WeightedItem>) -> bool
    decreases items.len(),
{
    items.len() == 0 || (merge_one_fits(acc, items[0]) && merge_all_fits(
        merge_one(acc, items[0]),
        items.drop_first(),
    ))
}

/// The set of value readings occurring in a sequence of items.
pub open spec fn value_views(s: Seq<WeightedItem>) -> Set<Seq<char>> {
    Set::new(|v: Seq<char>| exists|k: int| 0 <= k < s.len() && s[k].value@ == v)
}

/// Removing an item introduces no value reading.
pub proof fn lemma_views_remove(s: Seq<WeightedItem>, k: int)
    requires
        0 <= k < s.len(),
    ensures
        forall|v: Seq<char>|
            #[trigger] value_views(s.remove(k)).contains(v) ==> value_views(s).contains(v),
{
    assert forall|v: Seq<char>|
        #[trigger] value_views(s.remove(k)).contains(v) implies value_views(s).contains(v) by {
        let j = choose|j: int| 0 <= j < s.remove(k).len() && s.remove(k)[j].value@ == v;
        if j < k {
            assert(s[j].value@ == v);
        } else {
            assert(s[j + 1].value@ == v);
        }
    }
}

/// Updating an item to one with the same value introduces no value reading.
pub proof fn lemma_views_update_same_value(s: Seq<WeightedItem>, k: int, it: WeightedItem)
    requires
        0 <= k < s.len(),
        it.value@ == s[k].value@,
    ensures
        forall|v: Seq<char>|
            #[trigger] value_views(s.update(k, it)).contains(v) ==> value_views(s).contains(v),
{
    assert forall|v: Seq<char>|
        #[trigger] value_views(s.update(k, it)).contains(v) implies value_views(s).contains(v) by {
        let j = choose|j: int| 0 <= j < s.update(k, it).len() && s.update(k, it)[j].value@ == v;
        assert(s[j].value@ == v || s[k].value@ == v);
    }
}

/// Removing an item takes its weight out of the total.
pub proof fn lemma_sum_remove(s: Seq<WeightedItem>, k: int)
    requires
        0 <= k < s.len(),
    ensures
        sum_weights(s.remove(k)) == sum_weights(s) - s[k].weight,
    decreases s.len(),
{
    if k == 0 {
        assert(s.remove(0) =~= s.drop_first());
    } else {
        assert(s.remove(k).drop_first() =~= s.drop_first().remove(k - 1));
        assert(s.remove(k)[0] == s[0]);
        lemma_sum_remove(s.drop_first(), k - 1);
    }
}

/// Items of weight `1`, one per value, in order.
pub open spec fn unit_items(values: Seq<String>) -> Seq<WeightedItem> {
    values.map_values(|v: String| WeightedItem { weight: 1i64, value: v })
}

pub proof fn lemma_first_value_match_props(s: Seq<WeightedItem>, v: Seq<char>)
    ensures
        0 <= first_value_match(s, v) <= s.len(),
        first_value_match(s, v) < s.len() ==> s[first_value_match(s, v)].value@ == v,
        forall|k: int| 0 <= k < first_value_match(s, v) ==> s[k].value@ != v,
        first_value_match(s, v) == s.len() ==> forall|k: int| 0 <= k < s.len() ==> s[k].value@ != v,
    decreases s.len(),
{
    if s.len() == 0 {
    } else if s[0].value@ == v {
    } else {
        let d = s.drop_first();
        lemma_first_value_match_props(d, v);
        let f = first_value_match(s, v);
        assert forall|k: int| 0 <= k < f implies s[k].value@ != v by {
            if k > 0 {
                assert(s[k] == d[k - 1]);
            }
        }
        if f == s.len() {
            assert forall|k: int| 0 <= k < s.len() implies s[k].value@ != v by {
                if k > 0 {
                    assert(s[k] == d[k - 1]);
                }
            }
        } else {
            assert(s[f] == d[f - 1]);
        }
    }
}

/// A position that matches, with no earlier match, is the first match.
pub proof fn lemma_first_value_match_at(s: Seq<WeightedItem>, v: Seq<char>, k: int)
    requires
        0 <= k < s.len(),
        s[k].value@ == v,
        forall|j: int| 0 <= j < k ==> s[j].value@ != v,
    ensures
        first_value_match(s, v) == k,
{
    lemma_first_value_match_props(s, v);
    let f = first_value_match(s, v);
    if f < k {
        assert(s[f].value@ != v);
    }
}

pub proof fn lemma_sum_update(s: Seq<WeightedItem>, j: int, it: WeightedItem)
    requires
        0 <= j < s.len(),
    ensures
        sum_weights(s.update(j, it)) == sum_weights(s) - s[j].weight + it.weight,
    decreases s.len(),
{
    if j == 0 {
        assert(s.update(0, it).drop_first() =~= s.drop_first());
        assert(s.update(0, it)[0] == it);
    } else {
        assert(s.update(j, it).drop_first() =~= s.drop_first().update(j - 1, it));
        assert(s.update(j, it)[0] == s[0]);
        lemma_sum_update(s.drop_first(), j - 1, it);
    }
}

/// Merging one item grows the total weight by exactly that item's weight.
pub proof fn lemma_merge_one_sum(s: Seq<WeightedItem>, it: WeightedItem)
    requires
        merge_one_fits(s, it),
    ensures
        sum_weights(merge_one(s, it)) == sum_weights(s) + it.weight,
{
    lemma_first_value_match_props(s, it.value@);
    let j = first_value_match(s, it.value@);
    if j < s.len() {
        lemma_sum_update(s, j, WeightedItem { weight: (s[j].weight + it.weight) as i64, value: s[j].value });
    } else {
        lemma_sum_weights_push(s, it);
    }
}

/// Merging a non-negative item into a non-negative list stays non-negative.
pub proof fn lemma_merge_one_nonneg(s: Seq<WeightedItem>, it: WeightedItem)
    requires
        nonneg_weights(s),
        it.weight >= 0,
        merge_one_fits(s, it),
    ensures
        nonneg_weights(merge_one(s, it)),
{
    lemma_first_value_match_props(s, it.value@);
}

/// With non-negative weights, no single weight exceeds the total.
pub proof fn lemma_weight_le_sum(s: Seq<WeightedItem>, k: int)
    requires
        nonneg_weights(s),
        0 <= k < s.len(),
    ensures
        s[k].weight <= sum_weights(s),
    decreases s.len(),
{
    if k == 0 {
        lemma_sum_nonneg(s.drop_first());
    } else {
        lemma_weight_le_sum(s.drop_first(), k - 1);
    }
}

/// A sequence of non-negative weights has a non-negative sum.
pub proof fn lemma_sum_nonneg(s: Seq<WeightedItem>)
    requires
        nonneg_weights(s),
    ensures
        sum_weights(s) >= 0,
    decreases s.len(),
{
    if s.len() > 0 {
        lemma_sum_nonneg(s.drop_first());
    }
}

/// Folding one more item through `merge_all` is one more `merge_one`.
pub proof fn lemma_merge_all_push(acc: Seq<WeightedItem>, items: Seq<WeightedItem>, it: WeightedItem)
    ensures
        merge_all(acc, items.push(it)) == merge_one(merge_all(acc, items), it),
    decreases items.len(),
{
    if items.len() == 0 {
        assert(items.push(it).drop_first() =~= Seq::<WeightedItem>::empty());
        assert(items.push(it)[0] == it);
        assert(merge_all(acc, items.push(it)) == merge_all(
            merge_one(acc, it),
            items.push(it).drop_first(),
        ));
        assert(merge_all(merge_one(acc, it), items.push(it).drop_first()) == merge_one(acc, it));
    } else {
        assert(items.push(it).drop_first() =~= items.drop_first().push(it));
        assert(items.push(it)[0] == items[0]);
        lemma_merge_all_push(merge_one(acc, items[0]), items.drop_first(), it);
        assert(merge_all(acc, items.push(it)) == merge_all(
            merge_one(acc, items[0]),
            items.drop_first().push(it),
        ));
        assert(merge_all(acc, items) == merge_all(merge_one(acc, items[0]), items.drop_first()));
    }
}

/// The total weight depends only on the weights, not on the values.
pub proof fn lemma_sum_same_weights(s1: Seq<WeightedItem>, s2: Seq<WeightedItem>)
    requires
        s1.len() == s2.len(),
        forall|k: int| 0 <= k < s1.len() ==> s1[k].weight == s2[k].weight,
    ensures
        sum_weights(s1) == sum_weights(s2),
    decreases s1.len(),
{
    if s1.len() != 0 {
        lemma_sum_same_weights(s1.drop_first(), s2.drop_first());
    }
}

/// No two items carry the same value reading.
pub open spec fn values_distinct(s: Seq<WeightedItem>) -> bool {
    forall|a: int, b: int| 0 <= a < b < s.len() ==> s[a].value@ != s[b].value@
}

/// `lookup_pos` depends only on the weights, not on the values.
pub proof fn lemma_lookup_same_weights(s1: Seq<WeightedItem>, s2: Seq<WeightedItem>, wi: int)
    requires
        s1.len() == s2.len(),
        forall|k: int| 0 <= k < s1.len() ==> s1[k].weight == s2[k].weight,
    ensures
        lookup_pos(s1, wi) == lookup_pos(s2, wi),
    decreases s1.len(),
{
    if s1.len() != 0 {
        lemma_lookup_same_weights(s1.drop_first(), s2.drop_first(), wi - s1[0].weight);
    }
}

} // verus!
