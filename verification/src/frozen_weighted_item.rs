use vstd::prelude::*;

use crate::weighted_item::WeightedItem;

verus! {

/// An item of a [`crate::FrozenWeightedList`]: a weighted value carrying the
/// cumulative weight of the list up to and including itself, precomputed at
/// construction so that indexing can binary-search instead of rescanning.
///
/// [`crate::FrozenWeightedList`]: crate::frozen_weighted_list::FrozenWeightedList
#[derive(Debug, Hash)]
pub struct FrozenWeightedItem {
    /// The running total of weights up to and including this item, in list
    /// order, at the time the list was built.
    pub cumulative_weight: i64,
    /// The weight of this item alone.
    pub weight: i64,
    /// The value stored in the item.
    pub value: String,
}

// == CONSTRUCTORS == //
impl FrozenWeightedItem {
    pub fn new(cumulative_weight: i64, weight: i64, value: String) -> (r: Self)
        ensures
            r == (FrozenWeightedItem { cumulative_weight, weight, value }),
    {
        FrozenWeightedItem { cumulative_weight, weight, value }
    }
}

// == ACCESSORS == //
impl FrozenWeightedItem {
    pub(crate) fn c_weight(&self) -> (r: i64)
        ensures
            r == self.cumulative_weight,
    {
        self.cumulative_weight
    }

    pub fn cumulative_weight(&self) -> (r: i64)
        ensures
            r == self.cumulative_weight,
    {
        self.cumulative_weight
    }

    pub fn weight(&self) -> (r: i64)
        ensures
            r == self.weight,
    {
        self.weight
    }

    pub fn value(&self) -> (r: &String)
        ensures
            r == self.value,
    {
        &self.value
    }

    /// Strip the cumulative weight, leaving a plain weighted item.
    pub fn to_weighted_item(self) -> (r: WeightedItem)
        ensures
            r == (WeightedItem { weight: self.weight, value: self.value }),
    {
        WeightedItem { weight: self.weight, value: self.value }
    }
}

// == TRAITS == //
impl Clone for FrozenWeightedItem {
    fn clone(&self) -> (r: Self)
        ensures
            r == *self,
    {
        FrozenWeightedItem {
            cumulative_weight: self.cumulative_weight,
            weight: self.weight,
            value: self.value.clone(),
        }
    }
}

/// Equality disregards the cumulative weight: two frozen items are equal
/// when they carry the same weight and value, wherever they sat in their
/// lists.
impl PartialEq for FrozenWeightedItem {
    fn eq(&self, other: &Self) -> (r: bool) {
        self.weight == other.weight && self.value == other.value
    }
}

impl vstd::std_specs::cmp::PartialEqSpecImpl for FrozenWeightedItem {
    open spec fn obeys_eq_spec() -> bool {
        true
    }

    open spec fn eq_spec(&self, other: &Self) -> bool {
        self.weight == other.weight && self.value@ == other.value@
    }
}

} // verus!
