//! Weighted lists: ordered sequences of (weight, value) pairs addressed by
//! weighted index, with weighted-random sampling.
//!
//! A weighted index is a coordinate in cumulative weight space: an item of
//! weight `w` spans `w` consecutive coordinates, so items with larger weight
//! are proportionally more likely to be addressed by a uniformly random
//! coordinate. [`WeightedList`] resolves a weighted index by a linear scan
//! and supports mutation; [`FrozenWeightedList`] precomputes cumulative
//! weights once and resolves a weighted index by binary search.

pub mod frozen_weighted_item;
pub mod frozen_weighted_list;
pub mod laws;
pub mod list_index;
pub mod list_mutation;
pub mod list_merge;
pub mod list_sort;
pub mod model;
pub mod rng;
pub mod sampling;
pub mod unique;
pub mod weighted_item;
pub mod weighted_list;

pub use frozen_weighted_item::FrozenWeightedItem;
pub use frozen_weighted_list::FrozenWeightedList;
pub use weighted_item::WeightedItem;
pub use weighted_list::WeightedList;

use vstd::prelude::*;

verus! {

/// Shorthand alias for [`WeightedItem`].
pub type WItem = WeightedItem;

/// Shorthand alias for [`WeightedList`].
pub type WList = WeightedList;

} // verus!
