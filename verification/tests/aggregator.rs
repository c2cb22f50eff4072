use property_values::aggregator::Aggregator;
use property_values::types::{PropertyType, TupleKey};

fn tuple(team_id: i64, property_type: PropertyType, key: &str, value: &str) -> TupleKey {
    TupleKey {
        team_id,
        property_type,
        property_key: key.to_string(),
        property_value: value.to_string(),
    }
}

fn plain(value: &str) -> TupleKey {
    tuple(1, PropertyType::Event, "k", value)
}

fn counts(aggregator: &mut Aggregator) -> Vec<(String, u64)> {
    let mut counts: Vec<(String, u64)> =
        aggregator.drain().into_iter().map(|(t, n)| (t.property_value, n)).collect();
    counts.sort();
    counts
}

#[test]
fn new_buffer_is_empty() {
    let aggregator = Aggregator::new();
    assert!(aggregator.is_empty());
    assert_eq!(aggregator.len(), 0);
}

#[test]
fn tuples_that_differ_in_one_field_are_counted_apart() {
    let mut aggregator = Aggregator::new();
    aggregator.record(tuple(1, PropertyType::Event, "k", "v"));
    aggregator.record(tuple(2, PropertyType::Event, "k", "v"));
    aggregator.record(tuple(1, PropertyType::Person, "k", "v"));
    aggregator.record(tuple(1, PropertyType::Event, "kv", ""));
    aggregator.record(tuple(1, PropertyType::Event, "k", "w"));
    aggregator.record(tuple(1, PropertyType::Event, "k", "v"));
    assert_eq!(aggregator.len(), 5);
    let mut seen: Vec<u64> = aggregator.drain().into_iter().map(|(_, n)| n).collect();
    seen.sort();
    assert_eq!(seen, vec![1, 1, 1, 1, 2]);
}

#[test]
fn tuples_with_the_same_digest_are_counted_apart() {
    // The digest runs over the texts without separators.
    let mut aggregator = Aggregator::new();
    aggregator.record(tuple(1, PropertyType::Event, "ab", "c"));
    aggregator.record(tuple(1, PropertyType::Event, "a", "bc"));
    aggregator.record(tuple(1, PropertyType::Event, "a", "bc"));
    let mut seen: Vec<(String, u64)> =
        aggregator.drain().into_iter().map(|(t, n)| (t.property_key, n)).collect();
    seen.sort();
    assert_eq!(seen, vec![("a".to_string(), 2), ("ab".to_string(), 1)]);
}

#[test]
fn record_many_counts_every_occurrence() {
    let mut aggregator = Aggregator::new();
    aggregator.record(plain("a"));
    aggregator.record_many(vec![plain("a"), plain("b"), plain("a"), plain("c")]);
    aggregator.record_many(vec![]);
    assert_eq!(
        counts(&mut aggregator),
        vec![("a".to_string(), 3), ("b".to_string(), 1), ("c".to_string(), 1)]
    );
}

#[test]
fn order_of_recording_does_not_matter() {
    let mut first = Aggregator::new();
    first.record_many(vec![plain("a"), plain("b"), plain("a")]);
    let mut second = Aggregator::new();
    second.record_many(vec![plain("a"), plain("a")]);
    second.record_many(vec![plain("b")]);
    assert_eq!(counts(&mut first), counts(&mut second));
}

#[test]
fn add_of_zero_lists_the_tuple() {
    let mut aggregator = Aggregator::new();
    aggregator.add(plain("a"), 0);
    assert_eq!(aggregator.len(), 1);
    assert!(!aggregator.is_empty());
    assert_eq!(counts(&mut aggregator), vec![("a".to_string(), 0)]);
}

#[test]
fn counts_stay_at_the_largest_value() {
    let mut aggregator = Aggregator::new();
    aggregator.add(plain("a"), u64::MAX - 1);
    aggregator.record_many(vec![plain("a"), plain("a"), plain("a")]);
    assert_eq!(counts(&mut aggregator), vec![("a".to_string(), u64::MAX)]);
}

#[test]
fn drain_empties_and_restore_brings_back() {
    let mut aggregator = Aggregator::new();
    aggregator.add(plain("a"), 5);
    aggregator.add(plain("b"), 6);
    let batch = aggregator.drain();
    assert_eq!(batch.len(), 2);
    assert!(aggregator.is_empty());
    assert!(aggregator.drain().is_empty());
    aggregator.restore(batch);
    assert_eq!(aggregator.len(), 2);
    assert_eq!(counts(&mut aggregator), vec![("a".to_string(), 5), ("b".to_string(), 6)]);
}

#[test]
fn restore_adds_every_entry_of_its_list() {
    let mut aggregator = Aggregator::new();
    aggregator.add(plain("a"), 1);
    aggregator.restore(vec![(plain("a"), 5), (plain("b"), 2), (plain("a"), 7)]);
    assert_eq!(counts(&mut aggregator), vec![("a".to_string(), 13), ("b".to_string(), 2)]);
    aggregator.restore(vec![(plain("a"), u64::MAX), (plain("a"), 1)]);
    assert_eq!(counts(&mut aggregator), vec![("a".to_string(), u64::MAX)]);
}

#[test]
fn many_tuples_are_found_again() {
    let mut aggregator = Aggregator::new();
    for round in 0..3 {
        for i in 0..2000 {
            aggregator.add(tuple(i, PropertyType::Group3, "k", &format!("v{}", i % 10)), round);
        }
    }
    assert_eq!(aggregator.len(), 2000);
    assert!(aggregator.drain().into_iter().all(|(_, n)| n == 3));
}
