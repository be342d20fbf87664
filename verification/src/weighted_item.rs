use vstd::prelude::*;

verus! {

/// An item in a `WeightedList`: a `value` paired with a numeric `weight`.
///
/// For consistency, `weight` always comes before `value` where ordering is
/// relevant.
#[derive(Debug, Eq, PartialEq, Hash)]
pub struct WeightedItem {
    /// The weight of the item. Zero and negative weights can be stored,
    /// though only items with positive weight are reachable through weighted
    /// indexing.
    pub weight: i64,
    /// The value stored in the item.
    pub value: String,
}

impl WeightedItem {
    /// Construct an item with `value` and a weight of `1`.
    pub fn unit(value: String) -> (r: Self)
        ensures
            r == (WeightedItem { weight: 1, value }),
    {
        WeightedItem { weight: 1, value }
    }

    /// Construct an item with `value` and `weight`.
    pub fn new(weight: i64, value: String) -> (r: Self)
        ensures
            r == (WeightedItem { weight, value }),
    {
        WeightedItem { weight, value }
    }

    /// Construct an item from a `(weight, value)` pair.
    pub fn from(pair: (i64, String)) -> (r: Self)
        ensures
            r == (WeightedItem { weight: pair.0, value: pair.1 }),
    {
        WeightedItem { weight: pair.0, value: pair.1 }
    }
}

/// Relies on std's `format!`: renders the weight in decimal between braces,
/// as `{ <weight>, <value> }`.
#[verifier::external_body]
fn item_label(weight: i64, value: &str) -> String {
    format!("{{ {}, {} }}", weight, value)
}

impl WeightedItem {
    /// The item's display form: `{ <weight>, <value> }`.
    pub fn to_display_string(&self) -> String {
        item_label(self.weight, self.value.as_str())
    }
}

impl Clone for WeightedItem {
    fn clone(&self) -> (r: Self)
        ensures
            r == *self,
    {
        WeightedItem { weight: self.weight, value: self.value.clone() }
    }
}

} // verus!
