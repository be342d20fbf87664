use weighted_list::{WItem, WList, WeightedItem, WeightedList};

fn el() -> WeightedList {
    WeightedList::new()
}

fn wl() -> WeightedList {
    WeightedList::init(vec![
        (2, String::from("sup")),
        (3, String::from("nova")),
        (5, String::from("shard")),
    ])
}

fn wll() -> WeightedList {
    WeightedList::init(vec![
        (2, String::from("sup")),
        (3, String::from("nova")),
        (5, String::from("shard")),
        (7, String::from("cortex")),
        (13, String::from("origin")),
        (20, String::from("vision")),
    ])
}

#[test]
fn test_init_constructors() {
    let _: WList = el();
    let _: WList = wl();
    let _: WList = wll();

    let list: WList = WList::with_capacity(42);
    assert!(list.is_empty());
}

#[test]
fn macro_constructor() {
    let list = WeightedList::init(vec![
        (2, String::from("sup")),
        (3, String::from("nova")),
        (5, String::from("shard")),
    ]);

    assert_eq!(*list.item_at(0), WItem::new(2, String::from("sup")))
}

#[test]
fn from_expanded() {
    assert_eq!(WList::from_expanded(vec![]), el());

    assert_eq!(
        WList::from_expanded(vec![
            String::from("qi"),
            String::from("sup"),
            String::from("sup")
        ]),
        WList::init(vec![(1, String::from("qi")), (2, String::from("sup"))])
    );

    assert_eq!(
        WList::from_expanded(vec![
            String::from("sup"),
            String::from("sup"),
            String::from("nova"),
            String::from("nova"),
            String::from("nova"),
            String::from("shard"),
            String::from("shard"),
            String::from("shard"),
            String::from("shard"),
            String::from("shard"),
        ]),
        wl()
    );
}

#[test]
fn from_iterator() {
}

#[test]
fn from_pairs() {
    // from a Vec of (weight, value) pairs
    assert_eq!(
        WList::from(vec![
            (2, String::from("sup")),
            (3, String::from("nova")),
            (5, String::from("shard")),
        ]),
        wl()
    );

    let e: Vec<(i64, String)> = vec![];
    assert_eq!(WList::from(e), el());
}

#[test]
fn from_items() {
    let list = wl();
    let items = list.items().clone();
    assert_eq!(WeightedList::from_items(items), wl());
    assert_eq!(wl().into_items(), wl().items().clone());
}

#[test]
fn test_equality_equality() {
    assert_eq!(el(), el());
    assert_eq!(wl(), wl());

    assert_ne!(el(), wl());
    assert_ne!(wl(), el());
}

#[test]
fn printing() {
    println!("\n");

    let list = el();
    println!("--- el.debug == {list:?}\n");
    println!("--- el.display == {}\n", list.to_display_string());

    let list = wl();
    println!("--- wl.debug == {list:?}\n");
    println!("--- wl.display == {}\n", list.to_display_string());
}

#[test]
fn display_string_exact() {
    assert_eq!(el().to_display_string(), "WeightedList[]");
    assert_eq!(
        wl().to_display_string(),
        "WeightedList[{ 2, sup }, { 3, nova }, { 5, shard }]"
    );
    assert_eq!(
        WeightedItem::new(-7, String::from("ix")).to_display_string(),
        "{ -7, ix }"
    );
}

#[test]
fn retain() {
}

#[test]
fn retain_mut() {
}

#[test]
fn retain_filters() {
    let mut list = wl();
    list.retain(|item| item.weight > 2);
    assert_eq!(
        list,
        WList::init(vec![(3, String::from("nova")), (5, String::from("shard"))])
    );

    let mut list = wl();
    list.retain_mut(|item| {
        if item.weight > 2 {
            Some(WeightedItem::new(item.weight * 2, item.value.clone()))
        } else {
            None
        }
    });
    assert_eq!(
        list,
        WList::init(vec![(6, String::from("nova")), (10, String::from("shard"))])
    );
}

#[test]
fn item_constructors() {
    let unit = WeightedItem::unit(String::from("sup"));
    assert_eq!(unit.weight, 1);
    assert_eq!(unit.value, "sup");

    let built = WeightedItem::new(4, String::from("nova"));
    assert_eq!(built, WeightedItem::from((4, String::from("nova"))));
    assert_eq!(built.clone(), built);
}

#[test]
fn clone() {
    let list = wl();
    let mut cloned = list.clone();
    cloned.clear();
    assert_ne!(list, cloned);
    assert_eq!(list, wl());
}
