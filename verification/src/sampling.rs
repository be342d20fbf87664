//! Weighted-random sampling for [`WeightedList`]: a uniform draw over the
//! weighted-index space selects each item with probability proportional to
//! its weight. The verified logic here fixes what holds of every draw the
//! random source can return; the draw itself crosses the trusted boundary
//! in [`crate::rng`].

use vstd::multiset::Multiset;
use vstd::prelude::*;

use crate::model::{
    has_lookup, lemma_lookup_found, lemma_lookup_props, lemma_sum_remove, lemma_sum_take_succ,
    lemma_sum_update,
    lemma_views_remove, lemma_views_update_same_value, lookup_pos, nonneg_weights, sum_weights,
    value_views,
};
use crate::rng::{draw_below, shuffle_items_raw, shuffle_weights_raw};
use crate::unique::{all_positive, distinct_values};
use crate::weighted_item::WeightedItem;
use crate::weighted_list::WeightedList;

verus! {

broadcast use vstd::seq_lib::group_to_multiset_ensures;

/// The multiset of value readings held by a sequence of items.
pub open spec fn values_multiset(s: Seq<WeightedItem>) -> Multiset<Seq<char>> {
    s.map_values(|it: WeightedItem| it.value@).to_multiset()
}

/// The multiset of readings of a sequence of returned values.
pub open spec fn strings_multiset(vs: Seq<String>) -> Multiset<Seq<char>> {
    vs.map_values(|v: String| v@).to_multiset()
}

/// How many draws one weight absorbs before its item is removed, when each
/// draw decrements by `d`: the weight divided by `d`, rounded up.
pub open spec fn draw_credit(w: int, d: int) -> int {
    if w <= 0 {
        0
    } else {
        (w + d - 1) / d
    }
}

/// The multiset of values a list yields when drawn to exhaustion with
/// decrement `d`: each value as often as its item's weight absorbs draws.
pub open spec fn credit_multiset(s: Seq<WeightedItem>, d: int) -> Multiset<Seq<char>>
    decreases s.len(),
{
    if s.len() == 0 {
        Multiset::<Seq<char>>::empty()
    } else {
        Seq::new(draw_credit(s[0].weight as int, d) as nat, |q: int| s[0].value@).to_multiset().add(
            credit_multiset(s.drop_first(), d),
        )
    }
}

/// How many draws the whole list absorbs with decrement `d`.
pub open spec fn credit_count(s: Seq<WeightedItem>, d: int) -> int
    decreases s.len(),
{
    if s.len() == 0 {
        0
    } else {
        draw_credit(s[0].weight as int, d) + credit_count(s.drop_first(), d)
    }
}

/// The decrement a bulk take uses when the caller gives none.
pub open spec fn decrement_or_one(decrement: Option<i64>) -> int {
    match decrement {
        Some(d) => d as int,
        None => 1,
    }
}

/// Removing an item takes one occurrence of its value reading out of the
/// list's value multiset.
proof fn lemma_values_multiset_remove(s: Seq<WeightedItem>, k: int)
    requires
        0 <= k < s.len(),
    ensures
        values_multiset(s) == values_multiset(s.remove(k)).insert(s[k].value@),
{
    let m = |it: WeightedItem| it.value@;
    assert(s.remove(k).map_values(m) =~= s.map_values(m).remove(k));
    assert(s.map_values(m)[k] == s[k].value@);
    assert(s.map_values(m).contains(s[k].value@));
    assert(values_multiset(s) =~= values_multiset(s.remove(k)).insert(s[k].value@));
}

/// Appending one returned value adds its reading to the output multiset.
proof fn lemma_strings_multiset_push(vs: Seq<String>, v: String)
    ensures
        strings_multiset(vs.push(v)) == strings_multiset(vs).insert(v@),
{
    let m = |x: String| x@;
    assert(vs.push(v).map_values(m) =~= vs.map_values(m).push(v@));
    assert(strings_multiset(vs.push(v)) =~= strings_multiset(vs).insert(v@));
}

proof fn lemma_strings_multiset_empty()
    ensures
        strings_multiset(Seq::<String>::empty()) == Multiset::<Seq<char>>::empty(),
{
    assert(Seq::<String>::empty().map_values(|x: String| x@) =~= Seq::<Seq<char>>::empty());
    assert(strings_multiset(Seq::<String>::empty()) =~= Multiset::<Seq<char>>::empty());
}

/// One draw against a weight strictly above the decrement spends one credit.
proof fn lemma_draw_credit_dec(w: int, d: int)
    requires
        d >= 1,
        w - d > 0,
    ensures
        draw_credit(w - d, d) == draw_credit(w, d) - 1,
{
    vstd::arithmetic::div_mod::lemma_div_plus_one(w - 1, d);
    assert(w + d - 1 == d + (w - 1));
    assert((w - d) + d - 1 == w - 1);
}

/// A positive weight no bigger than the decrement is spent in one draw.
proof fn lemma_draw_credit_one(w: int, d: int)
    requires
        d >= 1,
        0 < w <= d,
    ensures
        draw_credit(w, d) == 1,
{
    vstd::arithmetic::div_mod::lemma_div_plus_one(w - 1, d);
    vstd::arithmetic::div_mod::lemma_basic_div(w - 1, d);
    assert(w + d - 1 == d + (w - 1));
}

/// A positive weight absorbs at least one draw; no weight absorbs a
/// negative number.
proof fn lemma_draw_credit_pos(w: int, d: int)
    requires
        d >= 1,
    ensures
        draw_credit(w, d) >= 0,
        w > 0 ==> draw_credit(w, d) >= 1,
{
    if w > 0 {
        vstd::arithmetic::div_mod::lemma_div_plus_one(w - 1, d);
        vstd::arithmetic::div_mod::lemma_div_pos_is_pos(w - 1, d);
        assert(w + d - 1 == d + (w - 1));
    }
}

/// Credits are never negative, and strictly positive weights give at least
/// one credit each.
proof fn lemma_credit_count_bounds(s: Seq<WeightedItem>, d: int)
    requires
        d >= 1,
    ensures
        credit_count(s, d) >= 0,
        all_positive(s) ==> credit_count(s, d) >= s.len(),
    decreases s.len(),
{
    if s.len() > 0 {
        lemma_draw_credit_pos(s[0].weight as int, d);
        lemma_credit_count_bounds(s.drop_first(), d);
    }
}

/// `c` copies of a value are `c - 1` copies plus one.
proof fn lemma_repeat_multiset(v: Seq<char>, c: int)
    requires
        c >= 1,
    ensures
        Seq::new(c as nat, |q: int| v).to_multiset() == Seq::new(
            (c - 1) as nat,
            |q: int| v,
        ).to_multiset().insert(v),
{
    assert(Seq::new(c as nat, |q: int| v) =~= Seq::new((c - 1) as nat, |q: int| v).push(v));
    assert(Seq::new(c as nat, |q: int| v).to_multiset() =~= Seq::new(
        (c - 1) as nat,
        |q: int| v,
    ).to_multiset().insert(v));
}

/// Decrementing the drawn item's weight moves one of its credits out of the
/// list's credit multiset.
proof fn lemma_credit_update(s: Seq<WeightedItem>, d: int, k: int)
    requires
        d >= 1,
        0 <= k < s.len(),
        0 < s[k].weight - d,
    ensures
        ({
            let it = WeightedItem { weight: (s[k].weight - d) as i64, value: s[k].value };
            credit_multiset(s, d) == credit_multiset(s.update(k, it), d).insert(s[k].value@)
                && credit_count(s, d) == credit_count(s.update(k, it), d) + 1
        }),
    decreases s.len(),
{
    let it = WeightedItem { weight: (s[k].weight - d) as i64, value: s[k].value };
    if k == 0 {
        assert(s.update(0, it).drop_first() =~= s.drop_first());
        assert(s.update(0, it)[0] == it);
        let w = s[0].weight as int;
        lemma_draw_credit_dec(w, d);
        lemma_draw_credit_pos(w, d);
        lemma_repeat_multiset(s[0].value@, draw_credit(w, d));
        assert(credit_multiset(s, d) =~= credit_multiset(s.update(0, it), d).insert(s[0].value@));
    } else {
        assert(s.update(k, it).drop_first() =~= s.drop_first().update(k - 1, it));
        assert(s.update(k, it)[0] == s[0]);
        assert(s.drop_first()[k - 1] == s[k]);
        lemma_credit_update(s.drop_first(), d, k - 1);
        assert(credit_multiset(s, d) =~= credit_multiset(s.update(k, it), d).insert(s[k].value@));
    }
}

/// Removing a drawn item whose weight is spent moves its last credit out of
/// the list's credit multiset.
proof fn lemma_credit_remove(s: Seq<WeightedItem>, d: int, k: int)
    requires
        d >= 1,
        0 <= k < s.len(),
        0 < s[k].weight <= d,
    ensures
        credit_multiset(s, d) == credit_multiset(s.remove(k), d).insert(s[k].value@),
        credit_count(s, d) == credit_count(s.remove(k), d) + 1,
    decreases s.len(),
{
    if k == 0 {
        assert(s.remove(0) =~= s.drop_first());
        lemma_draw_credit_one(s[0].weight as int, d);
        assert(Seq::new(1nat, |q: int| s[0].value@) =~= Seq::<Seq<char>>::empty().push(
            s[0].value@,
        ));
        assert(Seq::<Seq<char>>::empty().to_multiset() =~= Multiset::<Seq<char>>::empty());
        assert(credit_multiset(s, d) =~= credit_multiset(s.remove(0), d).insert(s[0].value@));
    } else {
        assert(s.remove(k).drop_first() =~= s.drop_first().remove(k - 1));
        assert(s.remove(k)[0] == s[0]);
        assert(s.drop_first()[k - 1] == s[k]);
        lemma_credit_remove(s.drop_first(), d, k - 1);
        assert(credit_multiset(s, d) =~= credit_multiset(s.remove(k), d).insert(s[k].value@));
    }
}

/// What one take with a positive decrement spends: exactly one credit of
/// the drawn item's value.
proof fn lemma_takes_one_credit(
    s0: Seq<WeightedItem>,
    s1: Seq<WeightedItem>,
    item: WeightedItem,
    d: int,
)
    requires
        takes_one(s0, s1, item, d),
        nonneg_weights(s0),
        1 <= d <= i64::MAX,
    ensures
        credit_multiset(s0, d) == credit_multiset(s1, d).insert(item.value@),
        credit_count(s0, d) == credit_count(s1, d) + 1,
{
    let wi = choose|wi: int|
        0 <= wi < sum_weights(s0) && {
            let k = #[trigger] lookup_pos(s0, wi);
            item == (WeightedItem { weight: (s0[k].weight - d) as i64, value: s0[k].value })
                && if item.weight <= 0 {
                s1 == s0.remove(k)
            } else {
                s1 == s0.update(k, item)
            }
        };
    lemma_lookup_found(s0, wi);
    lemma_lookup_props(s0, wi);
    let k = lookup_pos(s0, wi);
    lemma_sum_take_succ(s0, k);
    if k == 0 {
        assert(s0.take(0) =~= Seq::<WeightedItem>::empty());
        assert(sum_weights(s0.take(0)) == 0);
    } else {
        assert(sum_weights(s0.take((k - 1) + 1)) <= wi);
    }
    let w = s0[k].weight as int;
    assert(w > 0);
    assert(i64::MIN <= w - d <= i64::MAX);
    if item.weight <= 0 {
        assert(0 < w <= d);
        lemma_credit_remove(s0, d, k);
    } else {
        lemma_credit_update(s0, d, k);
    }
}

/// What one successful weighted-random take leaves behind: some in-range
/// weighted index selected position `k`; the item there came back with its
/// weight decremented, and the list kept it updated or dropped it when the
/// new weight was no longer positive.
pub open spec fn takes_one(
    s0: Seq<WeightedItem>,
    s1: Seq<WeightedItem>,
    item: WeightedItem,
    decrement: int,
) -> bool {
    exists|wi: int|
        0 <= wi < sum_weights(s0) && {
            let k = #[trigger] lookup_pos(s0, wi);
            item == (WeightedItem { weight: (s0[k].weight - decrement) as i64, value: s0[k].value })
                && if item.weight <= 0 {
                s1 == s0.remove(k)
            } else {
                s1 == s0.update(k, item)
            }
        }
}

/// What one successful whole-item removal by weighted index does.
pub open spec fn takes_entire(
    s0: Seq<WeightedItem>,
    s1: Seq<WeightedItem>,
    item: WeightedItem,
) -> bool {
    exists|wi: int|
        #![auto]
        0 <= wi < sum_weights(s0) && item == s0[lookup_pos(s0, wi)] && s1 == s0.remove(
            lookup_pos(s0, wi),
        )
}

impl WeightedList {
    /// Draw a uniformly random weighted index in `0..len()`, or `None` when
    /// the list's total weight is non-positive (nothing is addressable) or
    /// does not fit the weight type.
    fn random_weighted_index(&self, rng: &mut rand::rngs::StdRng) -> (r: Option<i64>)
        ensures
            match r {
                Some(wi) => 0 < sum_weights(self@) <= i64::MAX && 0 <= wi < sum_weights(self@),
                None => !(0 < sum_weights(self@) <= i64::MAX),
            },
    {
        let t = self.weight_total_wide();
        if t <= 0 || t > (i64::MAX as i128) {
            None
        } else {
            Some(draw_below(rng, t as i64))
        }
    }

    /// Select a random item by weighted randomisation, leaving the list
    /// unchanged. Returns `None` when the total weight is non-positive or
    /// does not fit the weight type.
    pub fn select_random_item(&self, rng: &mut rand::rngs::StdRng) -> (r: Option<&WeightedItem>)
        ensures
            match r {
                Some(item) => 0 < sum_weights(self@) <= i64::MAX && exists|wi: int|
                    #![auto]
                    0 <= wi < sum_weights(self@) && item == self@[lookup_pos(self@, wi)],
                None => !(0 < sum_weights(self@) <= i64::MAX),
            },
    {
        match self.random_weighted_index(rng) {
            None => None,
            Some(wi) => {
                proof {
                    lemma_lookup_found(self@, wi as int);
                }
                Some(self.item_at(wi))
            },
        }
    }

    /// Select a random item by weighted randomisation and return a
    /// reference to its value.
    pub fn select_random_value(&self, rng: &mut rand::rngs::StdRng) -> (r: Option<&String>)
        ensures
            match r {
                Some(value) => 0 < sum_weights(self@) <= i64::MAX && exists|wi: int|
                    #![auto]
                    0 <= wi < sum_weights(self@) && value == self@[lookup_pos(self@, wi)].value,
                None => !(0 < sum_weights(self@) <= i64::MAX),
            },
    {
        match self.select_random_item(rng) {
            None => None,
            Some(item) => Some(&item.value),
        }
    }

    /// Select a random item by weighted randomisation and decrement its
    /// weight by `decrement`, removing the item when the new weight is no
    /// longer positive. Returns the item with its updated weight, or `None`
    /// (leaving the list unchanged) when the total weight is non-positive or
    /// does not fit the weight type.
    pub fn take_by_random(&mut self, rng: &mut rand::rngs::StdRng, decrement: i64) -> (r: Option<
        WeightedItem,
    >)
        requires
            forall|k: int|
                0 <= k < old(self)@.len() ==> i64::MIN <= (#[trigger] old(self)@[k]).weight
                    - decrement <= i64::MAX,
        ensures
            match r {
                Some(item) => 0 < sum_weights(old(self)@) <= i64::MAX && takes_one(
                    old(self)@,
                    final(self)@,
                    item,
                    decrement as int,
                ),
                None => !(0 < sum_weights(old(self)@) <= i64::MAX) && final(self)@ == old(self)@,
            },
    {
        match self.random_weighted_index(rng) {
            None => None,
            Some(wi) => {
                proof {
                    lemma_lookup_found(self@, wi as int);
                    lemma_lookup_props(self@, wi as int);
                }
                let item = self.take_by_at(decrement, wi);
                Some(item)
            },
        }
    }

    /// Select a random item by weighted randomisation and decrement its
    /// weight by `1`, removing the item when the new weight is no longer
    /// positive.
    pub fn take_one_random(&mut self, rng: &mut rand::rngs::StdRng) -> (r: Option<WeightedItem>)
        requires
            forall|k: int|
                0 <= k < old(self)@.len() ==> i64::MIN < (#[trigger] old(self)@[k]).weight,
        ensures
            match r {
                Some(item) => 0 < sum_weights(old(self)@) <= i64::MAX && takes_one(
                    old(self)@,
                    final(self)@,
                    item,
                    1,
                ),
                None => !(0 < sum_weights(old(self)@) <= i64::MAX) && final(self)@ == old(self)@,
            },
    {
        self.take_by_random(rng, 1)
    }

    /// Select a random item by weighted randomisation and remove it
    /// outright, whatever its weight. One item leaves the list on every
    /// successful draw.
    pub fn take_entire_random(&mut self, rng: &mut rand::rngs::StdRng) -> (r: Option<WeightedItem>)
        ensures
            match r {
                Some(item) => 0 < sum_weights(old(self)@) <= i64::MAX && takes_entire(
                    old(self)@,
                    final(self)@,
                    item,
                ) && final(self)@.len() == old(self)@.len() - 1,
                None => !(0 < sum_weights(old(self)@) <= i64::MAX) && final(self)@ == old(self)@,
            },
    {
        match self.random_weighted_index(rng) {
            None => None,
            Some(wi) => {
                proof {
                    lemma_lookup_found(self@, wi as int);
                    lemma_lookup_props(self@, wi as int);
                }
                let item = self.take_entire_at(wi);
                Some(item)
            },
        }
    }
}

/// What one take leaves behind, seen from the outside: the returned value
/// was a value of the list, the surviving values were all there before, and
/// no weight went negative.
proof fn lemma_takes_one_props(
    s0: Seq<WeightedItem>,
    s1: Seq<WeightedItem>,
    item: WeightedItem,
    dec: int,
)
    requires
        takes_one(s0, s1, item, dec),
        nonneg_weights(s0),
        0 <= dec <= i64::MAX,
    ensures
        value_views(s0).contains(item.value@),
        forall|v: Seq<char>| #[trigger] value_views(s1).contains(v) ==> value_views(s0).contains(v),
        nonneg_weights(s1),
        sum_weights(s1) <= sum_weights(s0),
        all_positive(s0) ==> all_positive(s1),
{
    let wi = choose|wi: int|
        0 <= wi < sum_weights(s0) && {
            let k = #[trigger] lookup_pos(s0, wi);
            item == (WeightedItem { weight: (s0[k].weight - dec) as i64, value: s0[k].value })
                && if item.weight <= 0 {
                s1 == s0.remove(k)
            } else {
                s1 == s0.update(k, item)
            }
        };
    lemma_lookup_found(s0, wi);
    lemma_lookup_props(s0, wi);
    let k = lookup_pos(s0, wi);
    assert(s0[k].value@ == item.value@);
    assert(value_views(s0).contains(item.value@));
    assert(i64::MIN <= s0[k].weight - dec <= i64::MAX);
    if item.weight <= 0 {
        lemma_views_remove(s0, k);
        lemma_sum_remove(s0, k);
        assert forall|j: int| 0 <= j < s1.len() implies (#[trigger] s1[j]).weight >= 0 by {
            if j < k {
                assert(s1[j] == s0[j]);
            } else {
                assert(s1[j] == s0[j + 1]);
            }
        }
        if all_positive(s0) {
            assert forall|j: int| 0 <= j < s1.len() implies (#[trigger] s1[j]).weight > 0 by {
                if j < k {
                    assert(s1[j] == s0[j]);
                } else {
                    assert(s1[j] == s0[j + 1]);
                }
            }
        }
    } else {
        lemma_views_update_same_value(s0, k, item);
        lemma_sum_update(s0, k, item);
        assert forall|j: int| 0 <= j < s1.len() implies (#[trigger] s1[j]).weight >= 0 by {
            assert(s1[j] == s0[j] || s1[j] == item);
        }
        if all_positive(s0) {
            assert forall|j: int| 0 <= j < s1.len() implies (#[trigger] s1[j]).weight > 0 by {
                assert(s1[j] == s0[j] || s1[j] == item);
            }
        }
    }
}

/// What one whole-item removal leaves behind, seen from the outside.
proof fn lemma_takes_entire_props(s0: Seq<WeightedItem>, s1: Seq<WeightedItem>, item: WeightedItem)
    requires
        takes_entire(s0, s1, item),
        nonneg_weights(s0),
    ensures
        value_views(s0).contains(item.value@),
        forall|v: Seq<char>| #[trigger] value_views(s1).contains(v) ==> value_views(s0).contains(v),
        nonneg_weights(s1),
        item.weight >= 0,
        sum_weights(s1) == sum_weights(s0) - item.weight,
        all_positive(s0) ==> all_positive(s1),
        values_multiset(s0) == values_multiset(s1).insert(item.value@),
{
    let wi = choose|wi: int|
        #![auto]
        0 <= wi < sum_weights(s0) && item == s0[lookup_pos(s0, wi)] && s1 == s0.remove(
            lookup_pos(s0, wi),
        );
    lemma_lookup_found(s0, wi);
    lemma_lookup_props(s0, wi);
    let k = lookup_pos(s0, wi);
    assert(s0[k].value@ == item.value@);
    assert(value_views(s0).contains(item.value@));
    lemma_views_remove(s0, k);
    lemma_sum_remove(s0, k);
    lemma_values_multiset_remove(s0, k);
    assert forall|j: int| 0 <= j < s1.len() implies (#[trigger] s1[j]).weight >= 0 by {
        if j < k {
            assert(s1[j] == s0[j]);
        } else {
            assert(s1[j] == s0[j + 1]);
        }
    }
    if all_positive(s0) {
        assert forall|j: int| 0 <= j < s1.len() implies (#[trigger] s1[j]).weight > 0 by {
            if j < k {
                assert(s1[j] == s0[j]);
            } else {
                assert(s1[j] == s0[j + 1]);
            }
        }
    }
}

/// With strictly positive weights there is at least one unit of weight per
/// item.
proof fn lemma_sum_at_least_len(s: Seq<WeightedItem>)
    requires
        all_positive(s),
    ensures
        sum_weights(s) >= s.len(),
    decreases s.len(),
{
    if s.len() > 0 {
        lemma_sum_at_least_len(s.drop_first());
    }
}

/// Taking with a decrement of zero touches nothing: the drawn item is a
/// positive-weight item, so it survives, unchanged.
proof fn lemma_takes_zero_identity(s0: Seq<WeightedItem>, s1: Seq<WeightedItem>, item: WeightedItem)
    requires
        takes_one(s0, s1, item, 0),
        nonneg_weights(s0),
    ensures
        s1 == s0,
{
    let wi = choose|wi: int|
        0 <= wi < sum_weights(s0) && {
            let k = #[trigger] lookup_pos(s0, wi);
            item == (WeightedItem { weight: (s0[k].weight - 0) as i64, value: s0[k].value })
                && if item.weight <= 0 {
                s1 == s0.remove(k)
            } else {
                s1 == s0.update(k, item)
            }
        };
    lemma_lookup_found(s0, wi);
    lemma_lookup_props(s0, wi);
    let k = lookup_pos(s0, wi);
    lemma_sum_take_succ(s0, k);
    if k == 0 {
        assert(s0.take(0) =~= Seq::<WeightedItem>::empty());
        assert(sum_weights(s0.take(0)) == 0);
    } else {
        assert(sum_weights(s0.take((k - 1) + 1)) <= wi);
    }
    assert(s0[k].weight > 0);
    assert(item == s0[k]);
    assert(s0.update(k, item) =~= s0);
}

// == BULK SAMPLING == //
impl WeightedList {
    /// Select up to `count` values by weighted randomisation against a
    /// private working copy, leaving the list itself unchanged.
    ///
    /// With `replace` left on (the default), draws never deplete the copy
    /// and values repeat freely: every draw succeeds, so exactly `count`
    /// values come back. With `replace` off, each draw decrements the drawn
    /// item's weight by `decrement` (`1` when absent), so the copy converges
    /// towards exhaustion: with positive weights the draws run until `count`
    /// or until every item is spent, and drawing to exhaustion returns each
    /// value exactly as often as its weight absorbs draws. With `unique` on,
    /// each draw removes the drawn item outright and values already emitted
    /// are skipped, so no value repeats; when `count` covers the whole list
    /// and every weight is positive, every distinct value is returned
    /// exactly once.
    ///
    /// Fewer than `count` values come back when the copy is exhausted or a
    /// draw fails; that is a documented weaker guarantee, not an error.
    pub fn select_random_values(
        &self,
        rng: &mut rand::rngs::StdRng,
        count: usize,
        replace: Option<bool>,
        decrement: Option<i64>,
        unique: Option<bool>,
    ) -> (r: Vec<String>)
        requires
            nonneg_weights(self@),
            decrement matches Some(d) ==> d >= 0,
        ensures
            r@.len() <= count,
            forall|j: int| 0 <= j < r@.len() ==> value_views(self@).contains(#[trigger] r@[j]@),
            (unique == Some(true)) ==> (forall|a: int, b: int|
                0 <= a < b < r@.len() ==> r@[a]@ != r@[b]@),
            (unique == Some(true) && count >= self@.len() && all_positive(self@) && sum_weights(
                self@,
            ) <= i64::MAX) ==> (forall|v: Seq<char>|
                #[trigger] value_views(self@).contains(v) ==> exists|j: int|
                    0 <= j < r@.len() && r@[j]@ == v),
            (unique == Some(true) && all_positive(self@) && sum_weights(self@) <= i64::MAX)
                ==> r@.len() == (if count <= distinct_values(self@) {
                count as int
            } else {
                distinct_values(self@)
            }),
            (unique != Some(true) && replace != Some(false) && 0 < sum_weights(self@) <= i64::MAX)
                ==> r@.len() == count,
            (unique != Some(true) && replace == Some(false) && decrement_or_one(decrement) >= 1
                && all_positive(self@) && sum_weights(self@) <= i64::MAX) ==> ({
                let d = decrement_or_one(decrement);
                r@.len() == (if count <= credit_count(self@, d) {
                    count as int
                } else {
                    credit_count(self@, d)
                }) && (count >= credit_count(self@, d) ==> strings_multiset(r@) == credit_multiset(
                    self@,
                    d,
                ))
            }),
    {
        let use_replace = match replace {
            Some(b) => b,
            None => true,
        };
        let dec = match decrement {
            Some(d) => d,
            None => 1,
        };
        let use_unique = match unique {
            Some(b) => b,
            None => false,
        };
        let mut pool = self.clone();
        if use_unique {
            return pool.take_unique_loop(rng, count, dec, true);
        }
        let d: i64 = if use_replace {
            0
        } else {
            dec
        };
        let ghost steady = d == 0 && 0 < sum_weights(self@) <= i64::MAX;
        let ghost drain = !use_replace && dec >= 1 && all_positive(self@) && sum_weights(self@)
            <= i64::MAX;
        let mut out: Vec<String> = Vec::new();
        let mut n: usize = 0;
        let mut stopped: bool = false;
        proof {
            lemma_strings_multiset_empty();
            if drain {
                assert(Multiset::<Seq<char>>::empty().add(credit_multiset(self@, d as int))
                    =~= credit_multiset(self@, d as int));
            }
        }
        while n < count && !stopped
            invariant
                steady == (d == 0 && 0 < sum_weights(self@) <= i64::MAX),
                drain == (!use_replace && dec >= 1 && all_positive(self@) && sum_weights(self@)
                    <= i64::MAX),
                use_replace ==> d == 0,
                !use_replace ==> d == dec,
                nonneg_weights(self@),
                nonneg_weights(pool@),
                d >= 0,
                n <= count,
                out@.len() <= n,
                steady ==> !stopped && pool@ == self@ && out@.len() == n,
                drain ==> out@.len() == n && all_positive(pool@) && sum_weights(pool@)
                    <= sum_weights(self@) && (stopped ==> pool@.len() == 0) && strings_multiset(
                    out@,
                ).add(credit_multiset(pool@, d as int)) == credit_multiset(self@, d as int)
                    && credit_count(pool@, d as int) == credit_count(self@, d as int) - n,
                forall|v: Seq<char>|
                    #[trigger] value_views(pool@).contains(v) ==> value_views(self@).contains(v),
                forall|j: int| 0 <= j < out@.len() ==> value_views(self@).contains(#[trigger] out@[j]@),
            decreases count - n, (if stopped {
                0int
            } else {
                1int
            }),
        {
            if pool.is_empty() {
                stopped = true;
            } else {
                let ghost p0 = pool@;
                proof {
                    if drain {
                        lemma_sum_at_least_len(p0);
                    }
                }
                match pool.take_by_random(rng, d) {
                    Some(item) => {
                        let ghost out0 = out@;
                        let ghost it = item;
                        proof {
                            lemma_takes_one_props(p0, pool@, item, d as int);
                            if steady {
                                lemma_takes_zero_identity(p0, pool@, item);
                            }
                            if drain {
                                lemma_takes_one_credit(p0, pool@, item, d as int);
                            }
                        }
                        out.push(item.value);
                        proof {
                            lemma_strings_multiset_push(out0, it.value);
                            if drain {
                                assert(strings_multiset(out@).add(
                                    credit_multiset(pool@, d as int),
                                ) =~= strings_multiset(out0).add(credit_multiset(p0, d as int)));
                            }
                        }
                        n += 1;
                    },
                    None => {
                        stopped = true;
                    },
                }
            }
        }
        proof {
            if drain {
                lemma_credit_count_bounds(pool@, d as int);
                if stopped {
                    assert(credit_multiset(pool@, d as int) =~= Multiset::<Seq<char>>::empty());
                    assert(strings_multiset(out@).add(Multiset::<Seq<char>>::empty())
                        =~= strings_multiset(out@));
                } else {
                    if count >= credit_count(self@, d as int) {
                        // every credit is spent, so only an empty pool remains
                        assert(pool@.len() == 0);
                        assert(credit_multiset(pool@, d as int) =~= Multiset::<
                            Seq<char>,
                        >::empty());
                        assert(strings_multiset(out@).add(Multiset::<Seq<char>>::empty())
                            =~= strings_multiset(out@));
                    }
                }
            }
        }
        out
    }

    /// Take up to `count` values by weighted randomisation, mutating the
    /// list itself. With `take_entire` on (the default), each draw removes
    /// the drawn item outright, so the returned values and the surviving
    /// values together are exactly the old values — drawing the whole list
    /// out returns a permutation of its values. With it off, each draw
    /// decrements the drawn item's weight by `decrement` (`1` when absent),
    /// and the returned values plus the credit left in the survivors account
    /// exactly for the credit the old list held.
    ///
    /// Fewer than `count` values come back when the list is exhausted or a
    /// draw fails.
    pub fn take_random_values(
        &mut self,
        rng: &mut rand::rngs::StdRng,
        count: usize,
        take_entire: Option<bool>,
        decrement: Option<i64>,
    ) -> (r: Vec<String>)
        requires
            nonneg_weights(old(self)@),
            decrement matches Some(d) ==> d >= 0,
        ensures
            r@.len() <= count,
            forall|j: int|
                0 <= j < r@.len() ==> value_views(old(self)@).contains(#[trigger] r@[j]@),
            nonneg_weights(final(self)@),
            forall|v: Seq<char>|
                #[trigger] value_views(final(self)@).contains(v) ==> value_views(old(self)@).contains(
                    v,
                ),
            (take_entire != Some(false) && all_positive(old(self)@) && sum_weights(old(self)@)
                <= i64::MAX) ==> (r@.len() == if count <= old(self)@.len() {
                count as int
            } else {
                old(self)@.len() as int
            } && final(self)@.len() == old(self)@.len() - r@.len()),
            take_entire != Some(false) ==> strings_multiset(r@).add(
                values_multiset(final(self)@),
            ) == values_multiset(old(self)@),
            (take_entire == Some(false) && decrement_or_one(decrement) >= 1)
                ==> strings_multiset(r@).add(
                credit_multiset(final(self)@, decrement_or_one(decrement)),
            ) == credit_multiset(old(self)@, decrement_or_one(decrement)),
    {
        let entire = match take_entire {
            Some(b) => b,
            None => true,
        };
        let dec = match decrement {
            Some(d) => d,
            None => 1,
        };
        let ghost s0 = old(self)@;
        let ghost steady = entire && all_positive(s0) && sum_weights(s0) <= i64::MAX;
        let mut out: Vec<String> = Vec::new();
        let mut n: usize = 0;
        let mut stopped: bool = false;
        proof {
            lemma_strings_multiset_empty();
            assert(Multiset::<Seq<char>>::empty().add(values_multiset(s0)) =~= values_multiset(
                s0,
            ));
            if dec >= 1 {
                assert(Multiset::<Seq<char>>::empty().add(credit_multiset(s0, dec as int))
                    =~= credit_multiset(s0, dec as int));
            }
        }
        while n < count && !stopped
            invariant
                s0 == old(self)@,
                steady == (entire && all_positive(s0) && sum_weights(s0) <= i64::MAX),
                entire == (take_entire != Some(false)),
                dec == decrement_or_one(decrement),
                nonneg_weights(s0),
                nonneg_weights(self@),
                dec >= 0,
                n <= count,
                out@.len() <= n,
                steady ==> out@.len() == n && all_positive(self@) && sum_weights(self@)
                    <= i64::MAX && self@.len() == s0.len() - n && (stopped ==> self@.len() == 0),
                forall|v: Seq<char>|
                    #[trigger] value_views(self@).contains(v) ==> value_views(s0).contains(v),
                forall|j: int| 0 <= j < out@.len() ==> value_views(s0).contains(#[trigger] out@[j]@),
                entire ==> strings_multiset(out@).add(values_multiset(self@)) == values_multiset(
                    s0,
                ),
                (!entire && dec >= 1) ==> strings_multiset(out@).add(
                    credit_multiset(self@, dec as int),
                ) == credit_multiset(s0, dec as int),
            decreases count - n, (if stopped {
                0int
            } else {
                1int
            }),
        {
            if self.is_empty() {
                stopped = true;
            } else {
                let ghost p0 = self@;
                proof {
                    if steady {
                        lemma_sum_at_least_len(p0);
                    }
                }
                let drawn = if entire {
                    self.take_entire_random(rng)
                } else {
                    self.take_by_random(rng, dec)
                };
                match drawn {
                    Some(item) => {
                        let ghost out0 = out@;
                        let ghost it = item;
                        proof {
                            if entire {
                                lemma_takes_entire_props(p0, self@, item);
                            } else {
                                lemma_takes_one_props(p0, self@, item, dec as int);
                                if dec >= 1 {
                                    lemma_takes_one_credit(p0, self@, item, dec as int);
                                }
                            }
                        }
                        out.push(item.value);
                        proof {
                            assert(out@ == out0.push(it.value));
                            lemma_strings_multiset_push(out0, it.value);
                            if entire {
                                assert(strings_multiset(out@).add(values_multiset(self@))
                                    =~= strings_multiset(out0).add(values_multiset(p0)));
                            }
                            if !entire && dec >= 1 {
                                assert(strings_multiset(out@).add(
                                    credit_multiset(self@, dec as int),
                                ) =~= strings_multiset(out0).add(credit_multiset(p0, dec as int)));
                            }
                        }
                        n += 1;
                    },
                    None => {
                        stopped = true;
                    },
                }
            }
        }
        out
    }

    /// Take up to `count` distinct values by weighted randomisation,
    /// decrementing each drawn item's weight by `decrement` (`1` when
    /// absent) and skipping values already emitted. No value repeats; with
    /// positive weights exactly `count` distinct values come back, or every
    /// distinct value once when the list holds fewer than `count`.
    pub fn take_random_values_unique(
        &mut self,
        rng: &mut rand::rngs::StdRng,
        count: usize,
        decrement: Option<i64>,
    ) -> (r: Vec<String>)
        requires
            nonneg_weights(old(self)@),
            decrement matches Some(d) ==> d >= 0,
        ensures
            r@.len() <= count,
            forall|a: int, b: int| 0 <= a < b < r@.len() ==> r@[a]@ != r@[b]@,
            forall|j: int|
                0 <= j < r@.len() ==> value_views(old(self)@).contains(#[trigger] r@[j]@),
            (count >= old(self)@.len() && all_positive(old(self)@) && sum_weights(old(self)@)
                <= i64::MAX) ==> (forall|v: Seq<char>|
                #[trigger] value_views(old(self)@).contains(v) ==> exists|j: int|
                    0 <= j < r@.len() && r@[j]@ == v),
            (all_positive(old(self)@) && sum_weights(old(self)@) <= i64::MAX) ==> r@.len() == (
            if count <= distinct_values(old(self)@) {
                count as int
            } else {
                distinct_values(old(self)@)
            }),
            nonneg_weights(final(self)@),
            forall|v: Seq<char>|
                #[trigger] value_views(final(self)@).contains(v) ==> value_views(old(self)@).contains(
                    v,
                ),
    {
        let dec = match decrement {
            Some(d) => d,
            None => 1,
        };
        self.take_unique_loop(rng, count, dec, false)
    }
}

// == SHUFFLING == //
impl WeightedList {
    /// Shuffle the order of items in place. The items afterwards are the
    /// same multiset in some order.
    pub fn shuffle_items(&mut self, rng: &mut rand::rngs::StdRng)
        ensures
            final(self)@.len() == old(self)@.len(),
            final(self)@.to_multiset() == old(self)@.to_multiset(),
    {
        let mut items = self.take_items();
        shuffle_items_raw(rng, &mut items);
        self.set_items(items);
    }

    /// Return a clone with the order of items shuffled.
    pub fn shuffled_items(&self, rng: &mut rand::rngs::StdRng) -> (r: Self)
        ensures
            r@.len() == self@.len(),
            r@.to_multiset() == self@.to_multiset(),
    {
        let mut out = self.clone();
        out.shuffle_items(rng);
        out
    }

    /// Shuffle which weight goes with which value, in place: the values keep
    /// their order while the multiset of weights is dealt out across them
    /// anew.
    pub fn shuffle_weights(&mut self, rng: &mut rand::rngs::StdRng)
        ensures
            final(self)@.len() == old(self)@.len(),
            forall|k: int|
                0 <= k < old(self)@.len() ==> (#[trigger] final(self)@[k]).value == old(
                    self,
                )@[k].value,
            final(self)@.map_values(|it: WeightedItem| it.weight).to_multiset() == old(
                self,
            )@.map_values(|it: WeightedItem| it.weight).to_multiset(),
    {
        let ghost s = old(self)@;
        let mut weights = self.weights();
        shuffle_weights_raw(rng, &mut weights);
        let n = self.total_values();
        let mut i: usize = 0;
        while i < n
            invariant
                s == old(self)@,
                n == s.len(),
                weights@.len() == n,
                self@.len() == n,
                i <= n,
                forall|k: int|
                    0 <= k < n ==> (#[trigger] self@[k]).value == s[k].value && self@[k].weight == (
                    if k < i {
                        weights@[k]
                    } else {
                        s[k].weight
                    }),
            decreases n - i,
        {
            let value = self.items()[i].value.clone();
            let w = weights[i];
            self.set_item(i, WeightedItem { weight: w, value });
            i += 1;
        }
        proof {
            assert(self@.map_values(|it: WeightedItem| it.weight) =~= weights@);
            assert(old(self)@.map_values(|it: WeightedItem| it.weight) =~= old(self)@.map_values(
                |it: WeightedItem| it.weight,
            ));
        }
    }

    /// Return a clone with the weight-to-value pairings shuffled.
    pub fn shuffled_weights(&self, rng: &mut rand::rngs::StdRng) -> (r: Self)
        ensures
            r@.len() == self@.len(),
            forall|k: int| 0 <= k < self@.len() ==> (#[trigger] r@[k]).value == self@[k].value,
            r@.map_values(|it: WeightedItem| it.weight).to_multiset() == self@.map_values(
                |it: WeightedItem| it.weight,
            ).to_multiset(),
    {
        let mut out = self.clone();
        out.shuffle_weights(rng);
        out
    }
}

} // verus!
