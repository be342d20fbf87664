//! The mutable weighted list: an ordered sequence of [`WeightedItem`]s with
//! linear-scan weighted indexing.

use vstd::pervasive::VecAdditionalExecFns;
use vstd::prelude::*;

use crate::model::{
    first_value_match, lemma_first_value_match_props, lemma_merge_all_push, lemma_merge_one_nonneg,
    lemma_merge_one_sum, lemma_sum_bounds, lemma_sum_take_all, lemma_sum_take_succ,
    lemma_weight_le_sum, merge_all, merge_one_fits, nonneg_weights, sum_fits_i64, sum_weights,
    unit_items,
};
use crate::weighted_item::WeightedItem;

verus! {

/// A homogeneous list of weighted items.
///
/// Near-identical to a `Vec<WeightedItem>`, except that indexing is
/// *weighted*: an item of weight `w` occupies `w` consecutive weighted
/// indices, so `item_at(0)` and `item_at(1)` both address the first item of
/// `[(2, "sup"), (3, "nova")]`, while `item_at(2)` through `item_at(4)`
/// address the second.
#[derive(Debug, Eq, PartialEq, Hash)]
pub struct WeightedList {
    data: Vec<WeightedItem>,
}

impl View for WeightedList {
    type V = Seq<WeightedItem>;

    closed spec fn view(&self) -> Seq<WeightedItem> {
        self.data@
    }
}

/// The items a list holds after building it from `(weight, value)` pairs.
pub open spec fn items_of_pairs(pairs: Seq<(i64, String)>) -> Seq<WeightedItem> {
    pairs.map_values(|p: (i64, String)| WeightedItem { weight: p.0, value: p.1 })
}

/// Each value repeated as many times as its weight, in list order.
pub open spec fn expanded_values(s: Seq<WeightedItem>) -> Seq<String>
    decreases s.len(),
{
    if s.len() == 0 {
        Seq::<String>::empty()
    } else {
        Seq::new(
            (if s[0].weight <= 0 {
                0int
            } else {
                s[0].weight as int
            }) as nat,
            |q: int| s[0].value,
        ) + expanded_values(s.drop_first())
    }
}

proof fn lemma_expanded_push(s: Seq<WeightedItem>, it: WeightedItem)
    ensures
        expanded_values(s.push(it)) == expanded_values(s) + Seq::new(
            (if it.weight <= 0 {
                0int
            } else {
                it.weight as int
            }) as nat,
            |q: int| it.value,
        ),
    decreases s.len(),
{
    let reps = |x: WeightedItem|
        (if x.weight <= 0 {
            0int
        } else {
            x.weight as int
        }) as nat;
    if s.len() == 0 {
        assert(s.push(it).drop_first() =~= Seq::<WeightedItem>::empty());
        assert(expanded_values(s.push(it).drop_first()) == Seq::<String>::empty());
        assert(s.push(it)[0] == it);
        assert(expanded_values(s.push(it)) =~= expanded_values(s) + Seq::new(
            reps(it),
            |q: int| it.value,
        ));
    } else {
        assert(s.push(it).drop_first() =~= s.drop_first().push(it));
        assert(s.push(it)[0] == s[0]);
        lemma_expanded_push(s.drop_first(), it);
        assert(expanded_values(s.push(it)) =~= expanded_values(s) + Seq::new(
            reps(it),
            |q: int| it.value,
        ));
    }
}

/// Extending a prefix by one item appends that item's repetitions.
proof fn lemma_expanded_take_succ(s: Seq<WeightedItem>, k: int)
    requires
        0 <= k < s.len(),
    ensures
        expanded_values(s.take(k + 1)) == expanded_values(s.take(k)) + Seq::new(
            (if s[k].weight <= 0 {
                0int
            } else {
                s[k].weight as int
            }) as nat,
            |q: int| s[k].value,
        ),
{
    assert(s.take(k + 1) =~= s.take(k).push(s[k]));
    lemma_expanded_push(s.take(k), s[k]);
}

// == CONSTRUCTORS == //
impl WeightedList {
    /// Construct an empty list.
    pub fn new() -> (r: Self)
        ensures
            r@ == Seq::<WeightedItem>::empty(),
    {
        WeightedList { data: Vec::new() }
    }

    /// Construct an empty list with the specified capacity.
    pub fn with_capacity(capacity: usize) -> (r: Self)
        ensures
            r@ == Seq::<WeightedItem>::empty(),
    {
        WeightedList { data: Vec::with_capacity(capacity) }
    }

    /// Construct a list from `(weight, value)` pairs.
    pub fn init(pairs: Vec<(i64, String)>) -> (r: Self)
        ensures
            r@ == items_of_pairs(pairs@),
    {
        let mut data: Vec<WeightedItem> = Vec::new();
        let mut i: usize = 0;
        while i < pairs.len()
            invariant
                i <= pairs@.len(),
                data@ == items_of_pairs(pairs@.take(i as int)),
            decreases pairs@.len() - i,
        {
            let value = pairs[i].1.clone();
            data.push(WeightedItem { weight: pairs[i].0, value });
            proof {
                assert(pairs@.take(i + 1) =~= pairs@.take(i as int).push(pairs@[i as int]));
                assert(data@ =~= items_of_pairs(pairs@.take(i + 1)));
            }
            i += 1;
        }
        proof {
            assert(pairs@.take(pairs@.len() as int) =~= pairs@);
        }
        WeightedList { data }
    }

    /// Construct a list from pre-built pairs (same as [`Self::init`]).
    pub fn from(pairs: Vec<(i64, String)>) -> (r: Self)
        ensures
            r@ == items_of_pairs(pairs@),
    {
        Self::init(pairs)
    }

    /// Construct a list directly from a vector of items.
    pub fn from_items(items: Vec<WeightedItem>) -> (r: Self)
        ensures
            r@ == items@,
    {
        WeightedList { data: items }
    }

    /// Construct a list from an expanded sequence of values: each value is
    /// merged in with weight `1`, so `n` equal values collapse into one item
    /// of weight `n`, ordered by first occurrence.
    pub fn from_expanded(values: Vec<String>) -> (r: Self)
        requires
            values@.len() <= i64::MAX,
        ensures
            r@ == merge_all(Seq::<WeightedItem>::empty(), unit_items(values@)),
    {
        let mut out = WeightedList::new();
        let mut i: usize = 0;
        while i < values.len()
            invariant
                i <= values@.len() <= i64::MAX,
                out@ == merge_all(Seq::<WeightedItem>::empty(), unit_items(values@.take(i as int))),
                nonneg_weights(out@),
                sum_weights(out@) == i,
            decreases values@.len() - i,
        {
            let ghost prev = out@;
            let unit = WeightedItem { weight: 1, value: values[i].clone() };
            proof {
                lemma_first_value_match_props(prev, unit.value@);
                let j = first_value_match(prev, unit.value@);
                if j < prev.len() {
                    lemma_weight_le_sum(prev, j);
                }
                assert(merge_one_fits(prev, unit));
                lemma_merge_one_sum(prev, unit);
                lemma_merge_one_nonneg(prev, unit);
            }
            out.merge_item(unit);
            proof {
                lemma_merge_all_push(
                    Seq::<WeightedItem>::empty(),
                    unit_items(values@.take(i as int)),
                    WeightedItem { weight: 1i64, value: values@[i as int] },
                );
                assert(unit_items(values@.take(i + 1)) =~= unit_items(values@.take(i as int)).push(
                    WeightedItem { weight: 1i64, value: values@[i as int] },
                ));
            }
            i += 1;
        }
        proof {
            assert(values@.take(values@.len() as int) =~= values@);
        }
        out
    }
}

// == ACCESSORS == //
impl WeightedList {
    /// Copies of the weights of each item, in list order.
    pub fn weights(&self) -> (r: Vec<i64>)
        ensures
            r@ == self@.map_values(|it: WeightedItem| it.weight),
    {
        let mut out: Vec<i64> = Vec::new();
        let mut i: usize = 0;
        while i < self.data.len()
            invariant
                i <= self@.len(),
                out@ == self@.take(i as int).map_values(|it: WeightedItem| it.weight),
            decreases self@.len() - i,
        {
            out.push(self.data[i].weight);
            proof {
                assert(self@.take(i + 1) =~= self@.take(i as int).push(self@[i as int]));
                assert(out@ =~= self@.take(i + 1).map_values(|it: WeightedItem| it.weight));
            }
            i += 1;
        }
        proof {
            assert(self@.take(self@.len() as int) =~= self@);
        }
        out
    }

    /// Clones of the values of each item, in list order.
    pub fn values(&self) -> (r: Vec<String>)
        ensures
            r@ == self@.map_values(|it: WeightedItem| it.value),
    {
        let mut out: Vec<String> = Vec::new();
        let mut i: usize = 0;
        while i < self.data.len()
            invariant
                i <= self@.len(),
                out@ == self@.take(i as int).map_values(|it: WeightedItem| it.value),
            decreases self@.len() - i,
        {
            out.push(self.data[i].value.clone());
            proof {
                assert(self@.take(i + 1) =~= self@.take(i as int).push(self@[i as int]));
                assert(out@ =~= self@.take(i + 1).map_values(|it: WeightedItem| it.value));
            }
            i += 1;
        }
        proof {
            assert(self@.take(self@.len() as int) =~= self@);
        }
        out
    }

    /// The values of the list written out in full: each value repeated as
    /// many times as its weight (items of non-positive weight contribute
    /// nothing). This materialises the expansion that weighted indexing
    /// only simulates.
    pub fn expanded(&self) -> (r: Vec<String>)
        requires
            forall|k: int| 0 <= k < self@.len() ==> (#[trigger] self@[k]).weight <= usize::MAX,
        ensures
            r@ == expanded_values(self@),
    {
        let ghost s = self@;
        let n = self.data.len();
        let mut out: Vec<String> = Vec::new();
        let mut i: usize = 0;
        while i < n
            invariant
                s == self@,
                forall|k: int| 0 <= k < s.len() ==> (#[trigger] s[k]).weight <= usize::MAX,
                n == s.len(),
                i <= n,
                out@ == expanded_values(s.take(i as int)),
            decreases n - i,
        {
            let w = self.data[i].weight;
            let reps: usize = if w <= 0 {
                0
            } else {
                w as usize
            };
            let ghost base = out@;
            let mut j: usize = 0;
            while j < reps
                invariant
                    j <= reps,
                    s == self@,
                    i < s.len(),
                    reps == if s[i as int].weight <= 0 {
                        0int
                    } else {
                        s[i as int].weight as int
                    },
                    out@ == base + Seq::new(j as nat, |q: int| s[i as int].value),
                decreases reps - j,
            {
                let value = self.data[i].value.clone();
                out.push(value);
                proof {
                    assert(out@ =~= base + Seq::new((j + 1) as nat, |q: int| s[i as int].value));
                }
                j += 1;
            }
            proof {
                lemma_expanded_take_succ(s, i as int);
                assert(out@ =~= expanded_values(s.take(i + 1)));
            }
            i += 1;
        }
        proof {
            assert(s.take(s.len() as int) =~= s);
        }
        out
    }

    /// A reference to the underlying vector of items.
    pub fn items(&self) -> (r: &Vec<WeightedItem>)
        ensures
            r@ == self@,
    {
        &self.data
    }

    /// The underlying vector of items, by value.
    pub fn into_items(self) -> (r: Vec<WeightedItem>)
        ensures
            r@ == self@,
    {
        self.data
    }

    /// `(weight, value)` pairs representing each item, in list order.
    pub fn raw(&self) -> (r: Vec<(i64, String)>)
        ensures
            r@ == self@.map_values(|it: WeightedItem| (it.weight, it.value)),
    {
        let mut out: Vec<(i64, String)> = Vec::new();
        let mut i: usize = 0;
        while i < self.data.len()
            invariant
                i <= self@.len(),
                out@ == self@.take(i as int).map_values(|it: WeightedItem| (it.weight, it.value)),
            decreases self@.len() - i,
        {
            out.push((self.data[i].weight, self.data[i].value.clone()));
            proof {
                assert(self@.take(i + 1) =~= self@.take(i as int).push(self@[i as int]));
                assert(out@ =~= self@.take(i + 1).map_values(
                    |it: WeightedItem| (it.weight, it.value),
                ));
            }
            i += 1;
        }
        proof {
            assert(self@.take(self@.len() as int) =~= self@);
        }
        out
    }
}

// == PHYSICAL EDITING PRIMITIVES == //
impl WeightedList {
    /// Overwrite the item at physical position `i`.
    pub(crate) fn set_item(&mut self, i: usize, item: WeightedItem)
        requires
            i < old(self)@.len(),
        ensures
            final(self)@ == old(self)@.update(i as int, item),
    {
        self.data.set(i, item);
    }

    /// Remove and return the item at physical position `i`.
    pub(crate) fn remove_phys(&mut self, i: usize) -> (r: WeightedItem)
        requires
            i < old(self)@.len(),
        ensures
            r == old(self)@[i as int],
            final(self)@ == old(self)@.remove(i as int),
    {
        self.data.remove(i)
    }

    /// Insert an item at physical position `i`.
    pub(crate) fn insert_phys(&mut self, i: usize, item: WeightedItem)
        requires
            i <= old(self)@.len(),
        ensures
            final(self)@ == old(self)@.insert(i as int, item),
    {
        self.data.insert(i, item);
    }

    /// Truncate to the first `n` items.
    pub(crate) fn truncate_phys(&mut self, n: usize)
        requires
            n <= old(self)@.len(),
        ensures
            final(self)@ == old(self)@.take(n as int),
    {
        self.data.truncate(n);
        proof {
            assert(old(self)@.subrange(0, n as int) =~= old(self)@.take(n as int));
        }
    }

    /// Replace the underlying vector wholesale.
    pub(crate) fn set_items(&mut self, items: Vec<WeightedItem>)
        ensures
            final(self)@ == items@,
    {
        self.data = items;
    }

    /// Move the underlying vector out, leaving the list empty.
    pub(crate) fn take_items(&mut self) -> (r: Vec<WeightedItem>)
        ensures
            r@ == old(self)@,
            final(self)@ == Seq::<WeightedItem>::empty(),
    {
        let mut items: Vec<WeightedItem> = Vec::new();
        core::mem::swap(&mut items, &mut self.data);
        items
    }

    /// Reserve capacity for at least `additional` more items, changing
    /// nothing the list holds.
    pub fn reserve(&mut self, additional: usize)
        ensures
            final(self)@ == old(self)@,
    {
        self.data.reserve(additional);
    }

    /// Move all items of `other` onto the end of `self`, leaving `other`
    /// empty.
    pub fn append(&mut self, other: &mut WeightedList)
        ensures
            final(self)@ == old(self)@ + old(other)@,
            final(other)@ == Seq::<WeightedItem>::empty(),
    {
        self.data.append(&mut other.data);
    }

    /// Append an item to the end of the list.
    pub fn push_item(&mut self, item: WeightedItem)
        ensures
            final(self)@ == old(self)@.push(item),
    {
        self.data.push(item);
    }

    /// Append a new item with `weight` and `value` to the end of the list.
    pub fn push_new_item(&mut self, weight: i64, value: String)
        ensures
            final(self)@ == old(self)@.push(WeightedItem { weight, value }),
    {
        self.push_item(WeightedItem { weight, value });
    }

    /// Append a new item with `value` and a weight of `1` to the end of the
    /// list.
    pub fn push_value(&mut self, value: String)
        ensures
            final(self)@ == old(self)@.push(WeightedItem { weight: 1i64, value }),
    {
        self.push_item(WeightedItem { weight: 1, value });
    }

    /// Remove the last item from the list and return it, or `None` if the
    /// list is empty.
    pub fn pop(&mut self) -> (r: Option<WeightedItem>)
        ensures
            old(self)@.len() == 0 ==> r is None && final(self)@ == old(self)@,
            old(self)@.len() > 0 ==> r == Some(old(self)@.last()) && final(self)@ == old(
                self,
            )@.drop_last(),
    {
        let r = self.data.pop();
        proof {
            if old(self)@.len() > 0 {
                assert(old(self)@.subrange(0, old(self)@.len() - 1) =~= old(self)@.drop_last());
            }
        }
        r
    }

    /// Remove and return the last item when `predicate` accepts it; return
    /// `None`, leaving the list unchanged, when the list is empty or the
    /// predicate rejects the last item. The predicate examines the item
    /// without changing it.
    pub fn pop_if<F: Fn(&WeightedItem) -> bool>(&mut self, predicate: F) -> (r: Option<
        WeightedItem,
    >)
        requires
            old(self)@.len() > 0 ==> predicate.requires((&old(self)@.last(),)),
        ensures
            ({
                let s0 = old(self)@;
                let s1 = final(self)@;
                match r {
                    Some(item) => s0.len() > 0 && item == s0.last() && predicate.ensures(
                        (&s0.last(),),
                        true,
                    ) && s1 == s0.drop_last(),
                    None => s1 == s0 && (s0.len() == 0 || predicate.ensures((&s0.last(),), false)),
                }
            }),
    {
        let n = self.data.len();
        if n == 0 {
            return None;
        }
        if predicate(&self.data[n - 1]) {
            let r = self.data.pop();
            proof {
                assert(old(self)@.subrange(0, old(self)@.len() - 1) =~= old(self)@.drop_last());
            }
            r
        } else {
            None
        }
    }

    /// Clear the list, removing all items.
    ///
    /// To set the weights of all items to `0` instead, use
    /// [`Self::zero_all_weights`].
    pub fn clear(&mut self)
        ensures
            final(self)@ == Seq::<WeightedItem>::empty(),
    {
        self.data.clear();
    }
}

// == PROPERTIES == //
impl WeightedList {
    /// Sum the weights of all items: the *weighted length* of the list.
    ///
    /// This is not the number of items — use [`Self::total_values`] for
    /// that. `len() == 0` does not imply the list is empty, since items may
    /// have zero or negative weight.
    pub fn len(&self) -> (r: i64)
        requires
            sum_fits_i64(self@),
        ensures
            r == sum_weights(self@),
    {
        let t = self.weight_total_wide();
        t as i64
    }

    /// Sum the weights of all items without any bound on the total, using a
    /// wide accumulator.
    pub fn weight_total_wide(&self) -> (t: i128)
        ensures
            t == sum_weights(self@),
    {
        let mut t: i128 = 0;
        let mut i: usize = 0;
        while i < self.data.len()
            invariant
                i <= self@.len(),
                t == sum_weights(self@.take(i as int)),
            decreases self@.len() - i,
        {
            proof {
                lemma_sum_take_succ(self@, i as int);
                lemma_sum_bounds(self@.take(i as int));
                assert(self@.take(i as int).len() == i);
            }
            t = t + (self.data[i].weight as i128);
            i += 1;
        }
        proof {
            lemma_sum_take_all(self@);
        }
        t
    }

    /// How many items are in the list.
    ///
    /// This is not the weighted length — use [`Self::len`] for that.
    pub fn total_values(&self) -> (r: usize)
        ensures
            r == self@.len(),
    {
        self.data.len()
    }

    /// Does the list contain no items?
    ///
    /// Returns `false` for a list whose items all weigh `0`, even though its
    /// weighted length is `0`.
    pub fn is_empty(&self) -> (r: bool)
        ensures
            r <==> self@.len() == 0,
    {
        self.data.is_empty()
    }

    /// Is the list non-empty with every item's weight equal to `0`?
    pub fn is_zero(&self) -> (r: bool)
        ensures
            r <==> (self@.len() > 0 && forall|k: int| 0 <= k < self@.len() ==> self@[k].weight == 0),
    {
        if self.data.is_empty() {
            return false;
        }
        let mut i: usize = 0;
        while i < self.data.len()
            invariant
                i <= self@.len(),
                forall|k: int| 0 <= k < i ==> self@[k].weight == 0,
            decreases self@.len() - i,
        {
            if self.data[i].weight != 0 {
                return false;
            }
            i += 1;
        }
        true
    }

    /// Does any item have a negative weight?
    pub fn has_negative_weights(&self) -> (r: bool)
        ensures
            r <==> exists|k: int| 0 <= k < self@.len() && self@[k].weight < 0,
    {
        let mut i: usize = 0;
        while i < self.data.len()
            invariant
                i <= self@.len(),
                forall|k: int| 0 <= k < i ==> self@[k].weight >= 0,
            decreases self@.len() - i,
        {
            if self.data[i].weight < 0 {
                return true;
            }
            i += 1;
        }
        false
    }
}

impl WeightedList {
    /// The list's display form: `WeightedList[{ w, v }, ...]`.
    pub fn to_display_string(&self) -> String {
        let mut out = String::new();
        out.append("WeightedList[");
        let mut i: usize = 0;
        while i < self.data.len()
            decreases self@.len() - i,
        {
            if i > 0 {
                out.append(", ");
            }
            let label = self.data[i].to_display_string();
            out.append(label.as_str());
            i += 1;
        }
        out.append("]");
        out
    }
}

impl Default for WeightedList {
    fn default() -> (r: Self)
        ensures
            r@ == Seq::<WeightedItem>::empty(),
    {
        WeightedList::new()
    }
}

impl Clone for WeightedList {
    fn clone(&self) -> (r: Self)
        ensures
            r@ == self@,
    {
        let mut data: Vec<WeightedItem> = Vec::new();
        let mut i: usize = 0;
        while i < self.data.len()
            invariant
                i <= self@.len(),
                data@ == self@.take(i as int),
            decreases self@.len() - i,
        {
            data.push(self.data[i].clone());
            proof {
                assert(data@ =~= self@.take(i + 1));
            }
            i += 1;
        }
        proof {
            assert(self@.take(self@.len() as int) =~= self@);
        }
        WeightedList { data }
    }
}

} // verus!
