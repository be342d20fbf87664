use weighted_list::{FrozenWeightedList, WeightedList};

fn efl() -> FrozenWeightedList {
    FrozenWeightedList::new()
}

fn fwl() -> FrozenWeightedList {
    FrozenWeightedList::init(vec![
        (2, String::from("sup")),
        (3, String::from("nova")),
        (5, String::from("shard")),
    ])
}

fn fwll() -> FrozenWeightedList {
    FrozenWeightedList::init(vec![
        (2, String::from("sup")),
        (3, String::from("nova")),
        (5, String::from("shard")),
        (7, String::from("cortex")),
        (13, String::from("origin")),
        (20, String::from("vision")),
    ])
}

fn wl() -> WeightedList {
    WeightedList::init(vec![
        (2, String::from("sup")),
        (3, String::from("nova")),
        (5, String::from("shard")),
    ])
}

#[test]
fn frozen_weighted_list__unweight_index_() {
    let list = fwl();
    assert_eq!(list._binary_unweight_index_(0), 0);
    assert_eq!(list._binary_unweight_index_(1), 0);
    assert_eq!(list._binary_unweight_index_(2), 1);
    assert_eq!(list._binary_unweight_index_(3), 1);
    assert_eq!(list._binary_unweight_index_(4), 1);
    assert_eq!(list._binary_unweight_index_(5), 2);
    assert_eq!(list._binary_unweight_index_(6), 2);
    assert_eq!(list._binary_unweight_index_(7), 2);
    assert_eq!(list._binary_unweight_index_(8), 2);
    assert_eq!(list._binary_unweight_index_(9), 2);
}

#[test]
fn test_constructors_macros() {
    let _list: FrozenWeightedList = FrozenWeightedList::init(vec![
        (2, String::from("sup")),
        (3, String::from("nova")),
        (5, String::from("shard")),
    ]);
}

#[test]
fn test_index_index() {
    let list = fwl();
    assert_eq!(list.item_at(0).value(), "sup");
    assert_eq!(list.item_at(1).value(), "sup");
    assert_eq!(list.item_at(2).value(), "nova");
    assert_eq!(list.item_at(3).value(), "nova");
    assert_eq!(list.item_at(4).value(), "nova");
    assert_eq!(list.item_at(5).value(), "shard");
    assert_eq!(list.item_at(6).value(), "shard");
    assert_eq!(list.item_at(7).value(), "shard");
    assert_eq!(list.item_at(8).value(), "shard");
    assert_eq!(list.item_at(9).value(), "shard");
}

#[test]
fn test_index_iter_methods() {
    let list = wl();

    for _ in list.items().iter() {}
}

#[test]
fn test_index_iter_sugar() {
    let list = fwl();

    for _ in list.items() {}

    for _ in list.into_items() {}
}

#[test]
fn test_index_large() {
    let list = fwll();
    assert_eq!(list.item_at(0).value(), "sup");
    assert_eq!(list.item_at(1).value(), "sup");
    assert_eq!(list.item_at(2).value(), "nova");
    assert_eq!(list.item_at(3).value(), "nova");
    assert_eq!(list.item_at(4).value(), "nova");
    assert_eq!(list.item_at(5).value(), "shard");
    assert_eq!(list.item_at(6).value(), "shard");
    assert_eq!(list.item_at(7).value(), "shard");
    assert_eq!(list.item_at(8).value(), "shard");
    assert_eq!(list.item_at(9).value(), "shard");
    assert_eq!(list.item_at(10).value(), "cortex");
    assert_eq!(list.item_at(11).value(), "cortex");
    assert_eq!(list.item_at(12).value(), "cortex");
    assert_eq!(list.item_at(13).value(), "cortex");
    assert_eq!(list.item_at(14).value(), "cortex");
    assert_eq!(list.item_at(15).value(), "cortex");
    assert_eq!(list.item_at(16).value(), "cortex");
    assert_eq!(list.item_at(17).value(), "origin");
    assert_eq!(list.item_at(18).value(), "origin");
    assert_eq!(list.item_at(19).value(), "origin");
    assert_eq!(list.item_at(20).value(), "origin");
    assert_eq!(list.item_at(21).value(), "origin");
    assert_eq!(list.item_at(22).value(), "origin");
    assert_eq!(list.item_at(23).value(), "origin");
    assert_eq!(list.item_at(24).value(), "origin");
    assert_eq!(list.item_at(25).value(), "origin");
    assert_eq!(list.item_at(26).value(), "origin");
    assert_eq!(list.item_at(27).value(), "origin");
    assert_eq!(list.item_at(28).value(), "origin");
    assert_eq!(list.item_at(29).value(), "origin");
    assert_eq!(list.item_at(30).value(), "vision");
    assert_eq!(list.item_at(31).value(), "vision");
    assert_eq!(list.item_at(32).value(), "vision");
    assert_eq!(list.item_at(33).value(), "vision");
    assert_eq!(list.item_at(34).value(), "vision");
    assert_eq!(list.item_at(35).value(), "vision");
    assert_eq!(list.item_at(36).value(), "vision");
    assert_eq!(list.item_at(37).value(), "vision");
    assert_eq!(list.item_at(38).value(), "vision");
    assert_eq!(list.item_at(39).value(), "vision");
    assert_eq!(list.item_at(40).value(), "vision");
    assert_eq!(list.item_at(41).value(), "vision");
    assert_eq!(list.item_at(42).value(), "vision");
    assert_eq!(list.item_at(43).value(), "vision");
    assert_eq!(list.item_at(44).value(), "vision");
    assert_eq!(list.item_at(45).value(), "vision");
    assert_eq!(list.item_at(46).value(), "vision");
    assert_eq!(list.item_at(47).value(), "vision");
    assert_eq!(list.item_at(48).value(), "vision");
    assert_eq!(list.item_at(49).value(), "vision");
}

#[test]
fn frozen_cumulative_weights() {
    let list = fwl();
    let items = list.items();
    assert_eq!(items[0].cumulative_weight(), 2);
    assert_eq!(items[1].cumulative_weight(), 5);
    assert_eq!(items[2].cumulative_weight(), 10);
    assert_eq!(items[0].weight(), 2);
    assert_eq!(items[1].weight(), 3);
    assert_eq!(items[2].weight(), 5);
}

#[test]
fn frozen_len_and_total_values() {
    assert_eq!(efl().len(), 0);
    assert_eq!(efl().total_values(), 0);
    assert!(efl().is_empty());

    let list = fwl();
    assert_eq!(list.len(), 10);
    assert_eq!(list.total_values(), 3);
    assert!(!list.is_empty());
}

#[test]
fn frozen_get_out_of_bounds() {
    let list = fwl();
    assert!(list.get(-1).is_none());
    assert_eq!(list.get(0).unwrap().value(), "sup");
    assert_eq!(list.get(9).unwrap().value(), "shard");
    assert!(list.get(10).is_none());
    assert!(list.get(11).is_none());
    assert!(efl().get(0).is_none());
}

#[test]
fn frozen_is_zero() {
    assert!(!efl().is_zero());
    assert!(!fwl().is_zero());
    assert!(FrozenWeightedList::init(vec![(0, String::from("qi"))]).is_zero());
    assert!(
        !FrozenWeightedList::init(vec![(0, String::from("qi")), (2, String::from("sup"))])
            .is_zero()
    );
}

#[test]
fn indexing_equivalence_concrete() {
    let frozen = fwl();
    let list = wl();
    for wi in 0..10 {
        assert_eq!(frozen.item_at(wi).value(), &list.item_at(wi).value);
        assert_eq!(frozen.item_at(wi).weight(), list.item_at(wi).weight);
    }
}

#[test]
fn frozen_item_accessors() {
    let item = weighted_list::FrozenWeightedItem::new(5, 3, String::from("nova"));
    assert_eq!(item.cumulative_weight(), 5);
    assert_eq!(item.weight(), 3);
    assert_eq!(item.value(), "nova");
    let plain = item.clone().to_weighted_item();
    assert_eq!(plain.weight, 3);
    assert_eq!(plain.value, "nova");
    assert_eq!(item, weighted_list::FrozenWeightedItem::new(99, 3, String::from("nova")));
    assert_ne!(item, weighted_list::FrozenWeightedItem::new(5, 4, String::from("nova")));
}
