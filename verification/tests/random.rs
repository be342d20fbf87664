use rand::rngs::StdRng;
use rand::SeedableRng;

use weighted_list::{WeightedItem, WeightedList};

fn rng_with(seed: u64) -> StdRng {
    StdRng::seed_from_u64(seed)
}

fn wl() -> WeightedList {
    WeightedList::init(vec![
        (2, String::from("sup")),
        (3, String::from("nova")),
        (5, String::from("shard")),
    ])
}

fn pairs(raw: Vec<(i64, &str)>) -> WeightedList {
    WeightedList::init(raw.into_iter().map(|(w, v)| (w, String::from(v))).collect())
}

#[test]
fn select_single() {
    let mut rng = rng_with(11);

    let list = pairs(vec![(100, "sup"), (5, "woah")]);

    let outs = vec!["sup", "woah"];

    for _ in 0..50 {
        let out = list.select_random_value(&mut rng);
        assert!(outs.contains(&out.unwrap().as_str()));
    }

    let items = vec![
        WeightedItem::new(100, String::from("sup")),
        WeightedItem::new(5, String::from("woah")),
    ];

    for _ in 0..50 {
        let out = list.select_random_item(&mut rng);
        assert!(items.contains(out.unwrap()));
    }
}

#[test]
fn take_single() {
    let mut rng = rng_with(12);

    let mut list = wl();
    list.take_entire_random(&mut rng);
    assert_eq!(list.total_values(), 2);
    list.take_entire_random(&mut rng);
    assert_eq!(list.total_values(), 1);
    list.take_entire_random(&mut rng);
    assert_eq!(list.total_values(), 0);

    let mut list = wl();
    list.take_by_random(&mut rng, 1);
    assert_eq!(list.total_values(), 3);
    list.take_by_random(&mut rng, 5);
    assert_eq!(list.total_values(), 2);
    list.take_by_random(&mut rng, 5);
    assert_eq!(list.total_values(), 1);
    list.take_by_random(&mut rng, 5);
    assert_eq!(list.total_values(), 0);
}

fn counts_of(results: &[String]) -> std::collections::BTreeMap<String, usize> {
    let mut counts = std::collections::BTreeMap::new();
    for value in results {
        *counts.entry(value.clone()).or_insert(0) += 1;
    }
    counts
}

#[test]
fn select_many() {
    let mut rng = rng_with(13);

    let list = wl();
    let count = list.len() as usize;

    let valid = vec!["sup", "nova", "shard"];

    // standard: with replacement
    for _ in 0..50 {
        let results = list.select_random_values(&mut rng, count, None, None, None);
        assert_eq!(results.len(), count);
        for result in results {
            assert!(valid.contains(&result.as_str()));
        }
    }

    // excess count, still with replacement
    for _ in 0..50 {
        let results = list.select_random_values(&mut rng, count * 2, None, None, None);
        for result in results {
            assert!(valid.contains(&result.as_str()));
        }
    }

    // unique only
    for _ in 0..2 {
        let results = list.select_random_values(&mut rng, count, None, None, Some(true));
        assert_eq!(results.len(), 3, "expected 3 unique values, got {:?}", results);
        assert!(results.contains(&String::from("sup")));
        assert!(results.contains(&String::from("nova")));
        assert!(results.contains(&String::from("shard")));
    }

    // without replacement: exhausting the pool returns each value exactly
    // as often as its weight
    for _ in 0..50 {
        let results = list.select_random_values(&mut rng, count, Some(false), None, None);
        let counts = counts_of(&results);
        assert_eq!(counts[&String::from("sup")], 2);
        assert_eq!(counts[&String::from("nova")], 3);
        assert_eq!(counts[&String::from("shard")], 5);
    }

    // without replacement, decrementing by two
    for _ in 0..50 {
        let results = list.select_random_values(&mut rng, count, Some(false), Some(2), None);
        let counts = counts_of(&results);
        assert_eq!(counts[&String::from("sup")], 1);
        assert_eq!(counts[&String::from("nova")], 2);
        assert_eq!(counts[&String::from("shard")], 3);
    }
}

#[test]
fn shuffle() {
    let mut list = wl();
    let mut more = wl();
    list.append(&mut more);
    let mut more = wl();
    list.append(&mut more);
    let mut more = wl();
    list.append(&mut more);
    let orig = list.clone();

    let mut rng = rng_with(14);
    list.shuffle_weights(&mut rng);
    assert_ne!(list, orig);

    let reshuffled = list.shuffled_weights(&mut rng);
    assert_ne!(reshuffled, list);
}

#[test]
fn shuffle_items_keeps_items() {
    let mut rng = rng_with(15);
    let mut list = wl();
    list.shuffle_items(&mut rng);
    assert_eq!(list.total_values(), 3);
    assert_eq!(list.len(), 10);
    let mut values = list.values();
    values.sort();
    assert_eq!(
        values,
        vec![
            String::from("nova"),
            String::from("shard"),
            String::from("sup")
        ]
    );

    let shuffled = wl().shuffled_items(&mut rng);
    assert_eq!(shuffled.len(), 10);
    assert_eq!(shuffled.total_values(), 3);
}

#[test]
fn shuffle_weights_keeps_value_order() {
    let mut rng = rng_with(16);
    for _ in 0..20 {
        let mut list = wl();
        list.shuffle_weights(&mut rng);
        assert_eq!(
            list.values(),
            vec![
                String::from("sup"),
                String::from("nova"),
                String::from("shard")
            ]
        );
        let mut weights = list.weights();
        weights.sort();
        assert_eq!(weights, vec![2, 3, 5]);
    }
}

#[test]
fn take_random_values_bulk() {
    let mut rng = rng_with(17);

    // take_entire (the default): each draw removes a whole item
    let mut list = wl();
    let results = list.take_random_values(&mut rng, 2, None, None);
    assert_eq!(results.len(), 2);
    assert_eq!(list.total_values(), 1);

    // exhausting with take_entire returns a permutation of the values
    for _ in 0..20 {
        let mut list = wl();
        let mut results = list.take_random_values(&mut rng, 10, None, None);
        assert!(list.is_empty());
        results.sort();
        assert_eq!(
            results,
            vec![
                String::from("nova"),
                String::from("shard"),
                String::from("sup")
            ]
        );
    }

    // decrementing by one until exhaustion
    let mut list = wl();
    let results = list.take_random_values(&mut rng, 100, Some(false), None);
    assert_eq!(results.len(), 10);
    assert!(list.is_empty());
    let counts = counts_of(&results);
    assert_eq!(counts[&String::from("sup")], 2);
    assert_eq!(counts[&String::from("nova")], 3);
    assert_eq!(counts[&String::from("shard")], 5);
}

#[test]
fn uniqueness_guarantee() {
    // bulk sampling with unique on, and a count covering the whole list,
    // returns exactly the set of distinct values, each exactly once,
    // whatever the draw order
    let mut rng = rng_with(18);
    for _ in 0..20 {
        let mut list = pairs(vec![(1, "sup"), (2, "nova"), (3, "sup"), (4, "shard")]);
        let results = list.take_random_values_unique(&mut rng, 4, None);
        let mut sorted = results.clone();
        sorted.sort();
        assert_eq!(
            sorted,
            vec![
                String::from("nova"),
                String::from("shard"),
                String::from("sup")
            ]
        );
    }

    let list = pairs(vec![(1, "sup"), (2, "nova"), (3, "sup"), (4, "shard")]);
    for _ in 0..20 {
        let results = list.select_random_values(&mut rng, 100, None, None, Some(true));
        let mut sorted = results.clone();
        sorted.sort();
        assert_eq!(
            sorted,
            vec![
                String::from("nova"),
                String::from("shard"),
                String::from("sup")
            ]
        );
    }
}

#[test]
fn sampling_proportionality() {
    // over many trials the observed frequency of each value stays within a
    // generous confidence band around its weight's share of the total
    let mut rng = rng_with(19);
    let list = wl();
    let trials = 20000;
    let mut counts = std::collections::BTreeMap::new();
    for _ in 0..trials {
        let value = list.select_random_value(&mut rng).unwrap().clone();
        *counts.entry(value).or_insert(0usize) += 1;
    }
    // expected 4000 / 6000 / 10000; each band is roughly five standard
    // deviations wide
    let sup = counts[&String::from("sup")];
    let nova = counts[&String::from("nova")];
    let shard = counts[&String::from("shard")];
    assert!(3700 <= sup && sup <= 4300, "sup drawn {} times", sup);
    assert!(5650 <= nova && nova <= 6350, "nova drawn {} times", nova);
    assert!(9650 <= shard && shard <= 10350, "shard drawn {} times", shard);
    assert_eq!(sup + nova + shard, trials);
}

#[test]
fn sampling_exhausted_sources() {
    let mut rng = rng_with(20);

    let empty = WeightedList::new();
    assert!(empty.select_random_value(&mut rng).is_none());
    assert!(empty.select_random_item(&mut rng).is_none());

    let mut empty = WeightedList::new();
    assert!(empty.take_one_random(&mut rng).is_none());
    assert!(empty.take_entire_random(&mut rng).is_none());
    assert!(empty.take_random_values(&mut rng, 5, None, None).is_empty());

    // a list whose weighted length is zero is unreachable through weighted
    // indexing, even though it still holds its items
    let zeroed = pairs(vec![(0, "qi")]);
    assert!(zeroed.select_random_value(&mut rng).is_none());
    assert_eq!(zeroed.total_values(), 1);
}

#[test]
fn take_one_random_decrements() {
    let mut rng = rng_with(21);
    let mut list = pairs(vec![(5, "only")]);
    let taken = list.take_one_random(&mut rng).unwrap();
    assert_eq!(taken, WeightedItem::new(4, String::from("only")));
    assert_eq!(list, pairs(vec![(4, "only")]));

    // decrementing a unit weight to zero removes the item
    let mut list = pairs(vec![(1, "only")]);
    let taken = list.take_one_random(&mut rng).unwrap();
    assert_eq!(taken, WeightedItem::new(0, String::from("only")));
    assert!(list.is_empty());
}
