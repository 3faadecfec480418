use std::cmp::Ordering;

use shard_stream::dense::{DenseInsertError, DenseOrderedMap, DEFAULT_SEGMENT_CAPACITY};
use shard_stream::sparse::{OrderedAppendMap, Xxh3DefaultBuilder};

#[test]
fn lookup_and_iteration_cross_segment_boundaries() {
    let mut map = DenseOrderedMap::<u128, 4>::new(2);
    for key in 2..12 {
        map.push(key, key * 10).expect("dense insertion");
    }

    assert_eq!(map.get(1), None);
    assert_eq!(map.get(2), Some(&20));
    assert_eq!(map.get(11), Some(&110));
    assert_eq!(
        map.iter()
            .into_iter()
            .map(|(key, value)| (key, *value))
            .collect::<Vec<_>>(),
        (2..12).map(|key| (key, key * 10)).collect::<Vec<_>>()
    );
}

#[test]
fn rejects_gaps_without_losing_the_value() {
    let mut map = DenseOrderedMap::<&str, 4>::new(7);
    let error = map.push(8, "eight").expect_err("gap must fail");
    assert_eq!(
        error,
        DenseInsertError::OutOfOrder {
            expected: 7,
            actual: 8,
            value: "eight",
        }
    );
    assert_eq!(map.next_key(), 7);
    assert_eq!(
        error.message(),
        "dense key 8 is out of order; expected 7".to_string()
    );
    assert_eq!(error.into_value(), "eight");
}

#[test]
fn prefix_truncation_is_bounded_and_preserves_direct_lookup() {
    let mut map = DenseOrderedMap::<u128, 4>::new(0);
    for key in 0..14 {
        map.push(key, key).expect("dense insertion");
    }

    assert_eq!(map.truncate_before(9), 9);
    assert_eq!(map.first_key(), 9);
    assert_eq!(map.get(8), None);
    assert_eq!(map.get(9), Some(&9));
    assert_eq!(
        map.iter().into_iter().map(|(key, _)| key).collect::<Vec<_>>(),
        (9..14).collect::<Vec<_>>()
    );
    assert_eq!(map.truncate_before(100), 5);
    assert!(map.is_empty());
    assert_eq!(map.first_key(), 14);
    map.push(14, 14).expect("append after complete truncation");
}

#[test]
fn binary_search_returns_key_or_insertion_key() {
    let mut map = DenseOrderedMap::<u128, 3>::new(10);
    for key in 10..20 {
        map.push(key, key * 2).expect("dense insertion");
    }
    assert_eq!(map.binary_search_by(|_, value| value.cmp(&28)), Ok(14));
    assert_eq!(
        map.binary_search_by(|_, value| {
            if *value < 29 {
                Ordering::Less
            } else {
                Ordering::Greater
            }
        }),
        Err(15)
    );
}

#[test]
fn mutable_iteration_and_pop_front_preserve_keys() {
    let mut map = DenseOrderedMap::<u128, 2>::new(5);
    for key in 5..10 {
        map.push(key, key).expect("dense insertion");
    }
    map.iter_mut(|_, value| value + 1);
    assert_eq!(map.pop_front(), Some((5, 6)));
    assert_eq!(map.get(6), Some(&7));
    assert_eq!(map.len(), 4);
}

#[test]
fn iteration_can_start_without_walking_the_retained_prefix() {
    let mut map = DenseOrderedMap::<u128, 3>::new(10);
    for key in 10..20 {
        map.push(key, key).expect("dense insertion");
    }
    assert_eq!(
        map.iter_from(16).into_iter().map(|(key, _)| key).collect::<Vec<_>>(),
        vec![16, 17, 18, 19]
    );
    assert_eq!(map.iter_from(20).into_iter().next(), None);
}

#[test]
fn values_change_in_place_and_read_back() {
    let mut map = DenseOrderedMap::<u64, DEFAULT_SEGMENT_CAPACITY>::default();
    assert_eq!(map.first_key(), 0);
    for key in 0..3u64 {
        map.push(u128::from(key), key).expect("dense insertion");
    }
    map.values_mut(|value| value * 10);
    *map.get_mut(1).expect("value") += 5;
    assert_eq!(map.values(), vec![&0, &15, &20]);
    assert_eq!(map.values_from(2), vec![&20]);
    assert!(map.contains_key(2));
    assert!(!map.contains_key(3));
    assert!(map.get_mut(3).is_none());
}

#[test]
fn the_last_key_cannot_be_used() {
    let mut map = DenseOrderedMap::<u8, 4>::new(u128::MAX);
    assert_eq!(
        map.push(u128::MAX, 1),
        Err(DenseInsertError::KeySpaceExhausted { value: 1 })
    );
    assert_eq!(map.next_key(), u128::MAX);
}

type Names = OrderedAppendMap<String, u32, Xxh3DefaultBuilder, DEFAULT_SEGMENT_CAPACITY>;

#[test]
fn replaces_in_place_and_iterates_in_insertion_order() {
    let mut map = Names::new();
    assert_eq!(map.insert("beta".into(), 2), None);
    assert_eq!(map.insert("alpha".into(), 1), None);
    assert_eq!(map.insert("beta".into(), 20), Some(2));

    assert_eq!(map.get(&"alpha".to_string()), Some(&1));
    assert_eq!(map.get(&"beta".to_string()), Some(&20));
    assert_eq!(
        map.iter()
            .into_iter()
            .map(|(key, value)| (key.as_str(), *value))
            .collect::<Vec<_>>(),
        vec![("beta", 20), ("alpha", 1)]
    );
}

#[test]
fn prehashed_lookup_validates_full_keys_on_collision() {
    let mut map = Names::new();
    assert_eq!(map.insert_prehashed(7, "one".into(), 1), None);
    assert_eq!(map.insert_prehashed(7, "two".into(), 2), None);
    assert_eq!(map.get_prehashed(7, &"one".to_string()), Some(&1));
    assert_eq!(map.get_prehashed(7, &"two".to_string()), Some(&2));
    assert_eq!(map.get_prehashed(7, &"three".to_string()), None);
}

#[test]
fn prefix_removal_preserves_remaining_ordinals_and_order() {
    let mut map = OrderedAppendMap::<u64, u64, Xxh3DefaultBuilder, 2>::new();
    for key in 0..6 {
        map.insert(key, key * 10);
    }
    assert_eq!(map.truncate_front(3), 3);
    assert_eq!(map.get(&2), None);
    assert_eq!(map.get(&3), Some(&30));
    assert_eq!(
        map.iter().into_iter().map(|(key, _)| *key).collect::<Vec<_>>(),
        vec![3, 4, 5]
    );
}

#[test]
fn entries_extend_a_map_one_by_one() {
    let mut map = Names::from_iter(vec![("a".into(), 1), ("b".into(), 2), ("a".into(), 3)]);
    assert_eq!(map.len(), 2);
    map.extend(vec![("c".into(), 4), ("b".into(), 5)]);
    assert_eq!(
        map.iter()
            .into_iter()
            .map(|(key, value)| (key.as_str(), *value))
            .collect::<Vec<_>>(),
        vec![("a", 3), ("b", 5), ("c", 4)]
    );
    *map.get_mut(&"c".to_string()).expect("entry") += 1;
    assert_eq!(map.pop_front(), Some(("a".to_string(), 3)));
    assert_eq!(map.get(&"c".to_string()), Some(&5));
    assert!(!map.is_empty());
}
