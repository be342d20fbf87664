use weighted_list::{WeightedItem, WeightedList};

fn el() -> WeightedList {
    WeightedList::new()
}

fn wl() -> WeightedList {
    WeightedList::init(vec![
        (2, String::from("sup")),
        (3, String::from("nova")),
        (5, String::from("shard")),
    ])
}

fn pairs(raw: Vec<(i64, &str)>) -> WeightedList {
    WeightedList::init(raw.into_iter().map(|(w, v)| (w, String::from(v))).collect())
}

#[test]
fn push() {
    let mut list = el();
    list.push_item(WeightedItem::unit(String::from("elysion")));
    assert_eq!(list, pairs(vec![(1, "elysion")]));

    let mut list = wl();
    list.push_item(WeightedItem::unit(String::from("elysion")));
    assert_eq!(
        list,
        pairs(vec![(2, "sup"), (3, "nova"), (5, "shard"), (1, "elysion")])
    );

    let mut list = el();
    list.push_new_item(1, String::from("elysion"));
    assert_eq!(list, pairs(vec![(1, "elysion")]));

    let mut list = wl();
    list.push_new_item(1, String::from("elysion"));
    assert_eq!(
        list,
        pairs(vec![(2, "sup"), (3, "nova"), (5, "shard"), (1, "elysion")])
    );

    let mut list = el();
    list.push_value(String::from("elysion"));
    assert_eq!(list, pairs(vec![(1, "elysion")]));
}

#[test]
fn insert() {
    let mut list = el();
    list.insert_item(0, WeightedItem::new(1, String::from("elysion")));
    assert_eq!(list, pairs(vec![(1, "elysion")]));

    let mut list = el();
    list.insert_value(0, String::from("elysion"));
    assert_eq!(list, pairs(vec![(1, "elysion")]));

    let mut list = el();
    list.insert_new_item(0, (1, String::from("elysion")));
    assert_eq!(list, pairs(vec![(1, "elysion")]));

    let first = pairs(vec![(1, "elysion"), (2, "sup"), (3, "nova"), (5, "shard")]);
    for wi in 0..2 {
        let mut list = wl();
        list.insert_new_item(wi, (1, String::from("elysion")));
        assert_eq!(list, first);
    }

    let second = pairs(vec![(2, "sup"), (1, "elysion"), (3, "nova"), (5, "shard")]);
    for wi in 2..5 {
        let mut list = wl();
        list.insert_new_item(wi, (1, String::from("elysion")));
        assert_eq!(list, second);
    }

    let third = pairs(vec![(2, "sup"), (3, "nova"), (1, "elysion"), (5, "shard")]);
    for wi in 5..10 {
        let mut list = wl();
        list.insert_new_item(wi, (1, String::from("elysion")));
        assert_eq!(list, third);
    }

    let fourth = pairs(vec![(2, "sup"), (3, "nova"), (5, "shard"), (1, "elysion")]);
    for wi in 10..12 {
        let mut list = wl();
        list.insert_new_item(wi, (1, String::from("elysion")));
        assert_eq!(list, fourth);
    }
}

#[test]
fn remove_at() {
    let orig = wl();
    let mut list = wl();

    assert_eq!(list.remove_at(0), orig.items()[0]);
    assert_eq!(list.remove_at(0), orig.items()[1]);
    assert_eq!(list.remove_at(0), orig.items()[2]);
    assert!(list.is_empty());
}

#[test]
fn truncate() {
    let mut list = el();
    list.truncate(0);
    assert_eq!(list, el());

    let mut list = el();
    list.truncate(1);
    assert_eq!(list, el());

    let mut list = el();
    list.truncate(10);
    assert_eq!(list, el());

    let mut list = wl();
    list.truncate(0);
    assert_eq!(list, el());

    let mut list = wl();
    list.truncate(1);
    assert_eq!(list, pairs(vec![(1, "sup")]));

    let mut list = wl();
    list.truncate(2);
    assert_eq!(list, pairs(vec![(2, "sup")]));

    let mut list = wl();
    list.truncate(3);
    assert_eq!(list, pairs(vec![(2, "sup"), (1, "nova")]));

    let mut list = wl();
    list.truncate(4);
    assert_eq!(list, pairs(vec![(2, "sup"), (2, "nova")]));

    let mut list = wl();
    list.truncate(5);
    assert_eq!(list, pairs(vec![(2, "sup"), (3, "nova")]));

    let mut list = wl();
    list.truncate(6);
    assert_eq!(list, pairs(vec![(2, "sup"), (3, "nova"), (1, "shard")]));

    let mut list = wl();
    let total = wl().len();
    list.truncate(total);
    assert_eq!(list, wl());
}

#[test]
fn clear() {
    let mut list = wl();
    list.clear();
    assert_eq!(list, el());
}

#[test]
fn prune() {
    let mut list = el();
    list.prune();
    assert_eq!(list, el());

    let mut list = wl();
    list.prune();
    assert_eq!(list, wl());

    let mut list = pairs(vec![(0, "sup")]);
    list.prune();
    assert_eq!(list, el());

    let mut list = pairs(vec![(-1, "sup")]);
    list.prune();
    assert_eq!(list, el());

    assert_eq!(pairs(vec![(0, "qi"), (2, "sup")]).pruned(), pairs(vec![(2, "sup")]));
}

#[test]
fn set_weights() {
    let mut list = el();
    list.zero_all_weights();
    assert_eq!(list, el());

    let mut list = wl();
    list.zero_all_weights();
    assert_eq!(list, pairs(vec![(0, "sup"), (0, "nova"), (0, "shard")]));

    let mut list = el();
    list.set_all_weights(37);
    assert_eq!(list, el());

    let mut list = wl();
    list.set_all_weights(37);
    assert_eq!(list, pairs(vec![(37, "sup"), (37, "nova"), (37, "shard")]));
}

#[test]
fn merge_single() {
    let mut list = el();
    list.merge_item(WeightedItem::new(2, String::from("sup")));
    assert_eq!(list, pairs(vec![(2, "sup")]));

    let mut list = wl();
    list.merge_item(WeightedItem::new(2, String::from("sup")));
    assert_eq!(list, pairs(vec![(4, "sup"), (3, "nova"), (5, "shard")]));

    let mut list = wl();
    list.merge_item(WeightedItem::new(2, String::from("elysion")));
    assert_eq!(
        list,
        pairs(vec![(2, "sup"), (3, "nova"), (5, "shard"), (2, "elysion")])
    );

    let mut list = el();
    list.merge_new_item(2, String::from("sup"));
    assert_eq!(list, pairs(vec![(2, "sup")]));

    let mut list = wl();
    list.merge_new_item(2, String::from("sup"));
    assert_eq!(list, pairs(vec![(4, "sup"), (3, "nova"), (5, "shard")]));

    let mut list = wl();
    list.merge_new_item(2, String::from("elysion"));
    assert_eq!(
        list,
        pairs(vec![(2, "sup"), (3, "nova"), (5, "shard"), (2, "elysion")])
    );

    let mut list = el();
    list.merge_value(String::from("sup"));
    assert_eq!(list, pairs(vec![(1, "sup")]));

    let mut list = wl();
    list.merge_value(String::from("sup"));
    assert_eq!(list, pairs(vec![(3, "sup"), (3, "nova"), (5, "shard")]));

    let mut list = wl();
    list.merge_value(String::from("elysion"));
    assert_eq!(
        list,
        pairs(vec![(2, "sup"), (3, "nova"), (5, "shard"), (1, "elysion")])
    );
}

#[test]
fn merge_many() {
    let mut list = el();
    list.merge_with(el());
    assert_eq!(list, el());

    let mut list = el();
    list.merge_with(wl());
    assert_eq!(list, wl());

    let mut list = wl();
    list.merge_with(wl());
    assert_eq!(list, pairs(vec![(4, "sup"), (6, "nova"), (10, "shard")]));

    let mut list = el();
    list.merge_duplicates();
    assert_eq!(list, el());

    let mut list = wl();
    list.merge_duplicates();
    assert_eq!(list, wl());

    let mut list = pairs(vec![(1, "sup"), (2, "sup")]);
    list.merge_duplicates();
    assert_eq!(list, pairs(vec![(3, "sup")]));
}

#[test]
fn merge_duplicates() {
    let mut list = el();
    list.merge_duplicates();
    assert_eq!(list, el());

    let mut list = wl();
    list.merge_duplicates();
    assert_eq!(list, wl());

    let mut list = pairs(vec![(1, "sup"), (2, "sup")]);
    list.merge_duplicates();
    assert_eq!(list, pairs(vec![(3, "sup")]));
}

#[test]
fn merge_duplicates_idempotent_concrete() {
    let mut once = pairs(vec![(1, "sup"), (2, ""), (20, "sup")]);
    once.merge_duplicates();
    assert_eq!(once, pairs(vec![(21, "sup"), (2, "")]));

    let mut twice = once.clone();
    twice.merge_duplicates();
    assert_eq!(twice, once);
}

#[test]
fn take_one_at() {
    let mut list = wl();

    list.take_one_at(0);
    assert_eq!(list, pairs(vec![(1, "sup"), (3, "nova"), (5, "shard")]));

    list.take_one_at(8);
    assert_eq!(list, pairs(vec![(1, "sup"), (3, "nova"), (4, "shard")]));

    list.take_one_at(3);
    assert_eq!(list, pairs(vec![(1, "sup"), (2, "nova"), (4, "shard")]));
}

#[test]
fn take_by_at() {
    let mut list = wl();

    list.take_by_at(2, 0);
    assert_eq!(list, pairs(vec![(3, "nova"), (5, "shard")]));
}

#[test]
fn take_entire_at_removes() {
    let mut list = wl();
    list.take_entire_at(3);
    assert_eq!(list, pairs(vec![(2, "sup"), (5, "shard")]));
}

#[test]
fn remove_values() {
    let mut list = wl();
    list.remove_value_first(&String::from("nova"));
    assert_eq!(list, pairs(vec![(2, "sup"), (5, "shard")]));

    let mut list = pairs(vec![(0, "qi"), (1, "qi"), (2, "sup")]);
    list.remove_value_last(&String::from("qi"));
    assert_eq!(list, pairs(vec![(0, "qi"), (2, "sup")]));

    let mut list = wl();
    list.remove_value_first(&String::from("absent"));
    assert_eq!(list, wl());

    let mut list = wl();
    list.remove_first_where(|item| item.weight > 2);
    assert_eq!(list, pairs(vec![(2, "sup"), (5, "shard")]));

    let mut list = wl();
    list.remove_last_where(|item| item.weight > 2);
    assert_eq!(list, pairs(vec![(2, "sup"), (3, "nova")]));
}

#[test]
fn pop_if() {
    let mut list = wl();
    assert_eq!(
        list.pop_if(|item| item.weight > 4),
        Some(WeightedItem::new(5, String::from("shard")))
    );
    assert_eq!(list, pairs(vec![(2, "sup"), (3, "nova")]));

    assert_eq!(list.pop_if(|item| item.weight > 4), None);
    assert_eq!(list, pairs(vec![(2, "sup"), (3, "nova")]));

    let mut list = el();
    assert_eq!(list.pop_if(|_| true), None);
}

#[test]
fn sorted() {
    assert_eq!(el().sorted(), el());
    assert_eq!(wl().sorted(), wl());
    assert_eq!(wl().reversed().sorted(), wl());
}

#[test]
fn from_frozen_weighted_list() {
    let frozen = weighted_list::FrozenWeightedList::init(vec![
        (2, String::from("sup")),
        (3, String::from("nova")),
        (5, String::from("shard")),
    ]);
    assert_eq!(frozen.into_weighted_list(), wl());
}

#[test]
fn swap_pop_append_reverse() {
    let mut list = wl();
    list.swap(0, 9);
    assert_eq!(list, pairs(vec![(5, "shard"), (3, "nova"), (2, "sup")]));

    let mut list = wl();
    assert_eq!(list.pop(), Some(WeightedItem::new(5, String::from("shard"))));
    assert_eq!(list, pairs(vec![(2, "sup"), (3, "nova")]));
    let mut list = el();
    assert_eq!(list.pop(), None);

    let mut list = wl();
    let mut other = pairs(vec![(7, "cortex")]);
    list.append(&mut other);
    assert_eq!(
        list,
        pairs(vec![(2, "sup"), (3, "nova"), (5, "shard"), (7, "cortex")])
    );
    assert!(other.is_empty());

    let mut list = wl();
    list.reverse();
    assert_eq!(list, pairs(vec![(5, "shard"), (3, "nova"), (2, "sup")]));
    assert_eq!(wl().reversed(), pairs(vec![(5, "shard"), (3, "nova"), (2, "sup")]));
}
