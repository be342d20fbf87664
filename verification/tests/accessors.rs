use weighted_list::{WeightedItem, WeightedList};

fn el() -> WeightedList {
    WeightedList::new()
}

fn wl() -> WeightedList {
    WeightedList::init(vec![
        (2, String::from("sup")),
        (3, String::from("nova")),
        (5, String::from("shard")),
    ])
}

#[test]
fn len() {
    assert_eq!(el().len(), 0);
    assert_eq!(wl().len(), 10);
}

#[test]
fn total_values() {
    assert_eq!(el().total_values(), 0);
    assert_eq!(wl().total_values(), 3);
}

#[test]
fn is_empty() {
    assert!(el().is_empty());
    assert!(!wl().is_empty());
}

#[test]
fn is_zero() {
    assert!(!el().is_zero());
    assert!(!wl().is_zero());
    assert!(WeightedList::init(vec![(0, String::from("qi"))]).is_zero());
    assert!(!WeightedList::init(vec![(0, String::from("qi")), (2, String::from("sup"))]).is_zero());
}

#[test]
fn has_negative_weights() {
    assert!(!el().has_negative_weights());
    assert!(!wl().has_negative_weights());
    assert!(WeightedList::init(vec![(-1, String::from("ix"))]).has_negative_weights());
    assert!(
        WeightedList::init(vec![(-1, String::from("ix")), (2, String::from("sup"))])
            .has_negative_weights()
    );
}

#[test]
fn weights() {
    assert_eq!(el().weights(), Vec::<i64>::new());
    assert_eq!(wl().weights(), vec![2, 3, 5]);
}

#[test]
fn values() {
    assert_eq!(el().values(), Vec::<String>::new());
    assert_eq!(
        wl().values(),
        vec![
            String::from("sup"),
            String::from("nova"),
            String::from("shard")
        ]
    );
}

#[test]
fn items() {
    assert!(el().items().is_empty());

    assert_eq!(
        wl().items(),
        &vec![
            WeightedItem::new(2, String::from("sup")),
            WeightedItem::new(3, String::from("nova")),
            WeightedItem::new(5, String::from("shard")),
        ]
    );
}

#[test]
fn raw() {
    assert!(el().raw().is_empty());

    assert_eq!(
        wl().raw(),
        vec![
            (2, String::from("sup")),
            (3, String::from("nova")),
            (5, String::from("shard")),
        ]
    );
}

#[test]
fn expanded() {
    assert_eq!(
        wl().expanded(),
        vec![
            String::from("sup"),
            String::from("sup"),
            String::from("nova"),
            String::from("nova"),
            String::from("nova"),
            String::from("shard"),
            String::from("shard"),
            String::from("shard"),
            String::from("shard"),
            String::from("shard"),
        ]
    );

    // non-positive weights contribute nothing
    assert_eq!(
        WeightedList::init(vec![
            (0, String::from("qi")),
            (-3, String::from("ix")),
            (2, String::from("sup"))
        ])
        .expanded(),
        vec![String::from("sup"), String::from("sup")]
    );
}

#[test]
fn item_at_and_get() {
    let list = wl();
    assert_eq!(list.item_at(0).value, "sup");
    assert_eq!(list.item_at(1).value, "sup");
    assert_eq!(list.item_at(2).value, "nova");
    assert_eq!(list.item_at(4).value, "nova");
    assert_eq!(list.item_at(5).value, "shard");
    assert_eq!(list.item_at(9).value, "shard");

    assert_eq!(list.get(9).unwrap().value, "shard");
    assert!(list.get(10).is_none());
    assert!(el().get(0).is_none());
    // a negative weighted index is below every running total, so it
    // addresses the first item under the linear rule
    assert_eq!(list.get(-1).unwrap().value, "sup");
}

#[test]
fn weighted_list__unweight_index_() {
    let list = wl();
    assert_eq!(list._unweight_index_(0), 0);
    assert_eq!(list._unweight_index_(1), 0);
    assert_eq!(list._unweight_index_(2), 1);
    assert_eq!(list._unweight_index_(3), 1);
    assert_eq!(list._unweight_index_(4), 1);
    assert_eq!(list._unweight_index_(5), 2);
    assert_eq!(list._unweight_index_(6), 2);
    assert_eq!(list._unweight_index_(7), 2);
    assert_eq!(list._unweight_index_(8), 2);
    assert_eq!(list._unweight_index_(9), 2);
}

#[test]
fn _unweight_index_nopanic_() {
    let list = wl();
    assert_eq!(list._unweight_index_nopanic_(10), 3);
    assert_eq!(list._unweight_index_nopanic_(11), 3);
    assert_eq!(list._unweight_index_nopanic_(12), 3);
}

#[test]
fn accessors() {
    assert!(el().len() == 0);
    assert!(wl().len() == 10);

    assert!(el().values().is_empty());
    assert!(wl().values() == vec![String::from("sup"), String::from("nova"), String::from("shard")]);

    assert!(el().weights().is_empty());
    assert!(wl().weights() == vec![2, 3, 5]);

    assert!(el().raw().is_empty());
    assert!(
        wl().raw()
            == vec![
                (2, String::from("sup")),
                (3, String::from("nova")),
                (5, String::from("shard")),
            ]
    );
}

#[test]
fn _unweight_index_skipping_() {
    let list = wl();

    let seen = vec![String::from("sup")];
    assert_eq!(list._unweight_index_skipping_(0, &seen), Some(1));
    assert_eq!(list._unweight_index_skipping_(1, &seen), Some(1));
    assert_eq!(list._unweight_index_skipping_(2, &seen), Some(1));
    assert_eq!(list._unweight_index_skipping_(3, &seen), Some(2));
    assert_eq!(list._unweight_index_skipping_(4, &seen), Some(2));
    assert_eq!(list._unweight_index_skipping_(5, &seen), Some(2));
    assert_eq!(list._unweight_index_skipping_(6, &seen), Some(2));
    assert_eq!(list._unweight_index_skipping_(7, &seen), Some(2));
    assert_eq!(list._unweight_index_skipping_(8, &seen), None);

    let seen = vec![String::from("nova")];
    assert_eq!(list._unweight_index_skipping_(0, &seen), Some(0));
    assert_eq!(list._unweight_index_skipping_(1, &seen), Some(0));
    assert_eq!(list._unweight_index_skipping_(2, &seen), Some(2));
    assert_eq!(list._unweight_index_skipping_(3, &seen), Some(2));
    assert_eq!(list._unweight_index_skipping_(4, &seen), Some(2));
    assert_eq!(list._unweight_index_skipping_(5, &seen), Some(2));
    assert_eq!(list._unweight_index_skipping_(6, &seen), Some(2));
}
