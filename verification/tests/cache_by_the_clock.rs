//! The cache driven by its own clock, with real waiting between the calls.

use lru_ttl_cache::{AuxCode, Cache, EntryState, Key, Value};
use std::time::{Duration, Instant};

const MILLISECOND: u64 = 1_000_000;

/// Doubles the key and reports code 1; fails for key -1.
fn double_or_fail(key: Key) -> (Value, AuxCode, bool) {
    if key == -1 {
        (0, 0, false)
    } else {
        (key * 2, 1, true)
    }
}

fn simple_cache() -> Cache<fn(Key) -> (Value, AuxCode, bool)> {
    Cache::new(
        3,
        double_or_fail as fn(Key) -> (Value, AuxCode, bool),
        200 * MILLISECOND,
        100 * MILLISECOND,
    )
}

fn wait(milliseconds: u64) {
    let start = Instant::now();
    while start.elapsed() < Duration::from_millis(milliseconds) {
        std::hint::spin_loop();
    }
}

#[test]
fn insert_value() {
    let mut cache = simple_cache();
    let key = 1;
    let value = 2;

    cache.insert(&key, &value);

    assert_eq!(cache.len(), 1);
}

#[test]
fn insert_same_key() {
    let mut cache = simple_cache();
    let key = 1;
    let value = 2;

    cache.insert(&key, &value);
    cache.insert(&key, &value);

    assert_eq!(cache.len(), 1);
}

#[test]
fn get_value() {
    let mut cache = simple_cache();
    let key = 1;
    let value = 2;

    cache.insert(&key, &value);

    assert_eq!(cache.get(&key), Some(value));
}

#[test]
fn get_value_not_found() {
    let mut cache = simple_cache();
    let key = 1;

    assert_eq!(cache.get(&key), None);
}

#[test]
fn insert_max_capacity() {
    let mut cache = simple_cache();
    let value = 2;

    cache.insert(&1, &value);
    cache.insert(&2, &value);
    cache.insert(&3, &value);
    cache.insert(&4, &value);

    assert_eq!(cache.len(), 3);
    assert_eq!(cache.get(&1), None);
}

#[test]
fn get_lru_change() {
    let mut cache = simple_cache();
    let value = 2;

    cache.insert(&1, &value);
    cache.insert(&2, &value);
    cache.get(&1);
    cache.insert(&3, &value);
    cache.insert(&4, &value);

    assert_eq!(cache.len(), 3);
    assert_eq!(cache.get(&2), None);
    assert_eq!(cache.get(&1), Some(value));
}

#[test]
fn ttl_expired() {
    let mut cache = simple_cache();
    let key = 1;
    let value = 2;

    cache.insert(&key, &value);
    wait(250);

    assert_eq!(cache.get(&key), None);
}

#[test]
fn retrieve_or_compute_not_in_cache() {
    let mut cache = simple_cache();
    let key = 1;

    let (data, adhoc_code) = cache.retrieve_or_compute(&key);

    assert_eq!(data, 2);
    assert_eq!(adhoc_code, 1);
    assert_eq!(cache.len(), 1);
}

#[test]
fn retrieve_or_compute_already_in_cache() {
    let mut cache = simple_cache();
    let key = 1;

    cache.retrieve_or_compute(&key);
    cache.retrieve_or_compute(&key);
    cache.retrieve_or_compute(&key);
    cache.retrieve_or_compute(&key);
    let (data, adhoc_code) = cache.retrieve_or_compute(&key);

    assert_eq!(data, 2);
    assert_eq!(adhoc_code, 1);
    assert_eq!(cache.len(), 1);
}

#[test]
fn retrieve_or_compute_ttl_expired() {
    let mut cache = simple_cache();
    let key = 1;

    cache.retrieve_or_compute(&key);
    let entry_1 = cache.peek(&key).unwrap();
    wait(100);
    cache.retrieve_or_compute(&key);
    let entry_2 = cache.peek(&key).unwrap();
    wait(150);
    cache.retrieve_or_compute(&key);
    let entry_3 = cache.peek(&key).unwrap();

    assert_eq!(entry_1.state, EntryState::Ready);
    assert_eq!(entry_1, entry_2);
    assert_ne!(entry_1, entry_3);
}

#[test]
fn retrieve_or_compute_negative_ttl() {
    let mut cache = simple_cache();
    let key = -1;

    cache.retrieve_or_compute(&key);
    let entry_1 = cache.peek(&key).unwrap();
    wait(105);
    cache.retrieve_or_compute(&key);
    let entry_2 = cache.peek(&key).unwrap();

    assert_ne!(entry_1, entry_2);
    assert_eq!(entry_1.state, EntryState::Failed);
}

#[test]
fn retrieve_or_compute_of_a_failing_key_serves_the_default() {
    let mut cache = simple_cache();

    assert_eq!(cache.retrieve_or_compute(&1), (2, 1));
    assert_eq!(cache.retrieve_or_compute(&-1), (0, 0));
    assert_eq!(cache.peek(&-1).unwrap().state, EntryState::Failed);
    let first_deadline = cache.peek(&-1).unwrap().expires_at;

    wait(105);
    assert_eq!(cache.retrieve_or_compute(&-1), (0, 0));
    let entry = cache.peek(&-1).unwrap();
    assert_eq!(entry.state, EntryState::Failed);
    assert!(entry.expires_at > first_deadline);
}

#[test]
fn the_clock_moves_forward() {
    let cache = simple_cache();
    let first = cache.now();
    wait(2);
    let second = cache.now();
    assert!(second >= first + 2 * MILLISECOND);
}

#[test]
fn a_deadline_is_the_time_of_the_insert_plus_the_positive_ttl() {
    let mut cache = simple_cache();
    let before = cache.now();
    cache.insert(&5, &50);
    let after = cache.now();
    let deadline = cache.peek(&5).unwrap().expires_at;
    assert!(deadline >= u128::from(before) + u128::from(200 * MILLISECOND));
    assert!(deadline <= u128::from(after) + u128::from(200 * MILLISECOND));
}
