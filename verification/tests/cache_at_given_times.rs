//! The cache told the time by its caller: every result is exact.

use lru_ttl_cache::{AuxCode, Cache, ConfigurationError, Entry, EntryState, Key, Value, MAX_CAPACITY};
use std::cell::Cell;

const MS: u64 = 1_000_000;

fn double_or_fail(key: Key) -> (Value, AuxCode, bool) {
    if key == -1 {
        (0, 0, false)
    } else {
        (key * 2, 1, true)
    }
}

fn cache_of_three() -> Cache<fn(Key) -> (Value, AuxCode, bool)> {
    Cache::new(3, double_or_fail as fn(Key) -> (Value, AuxCode, bool), 200 * MS, 100 * MS)
}

#[test]
fn len_never_exceeds_the_capacity() {
    let mut cache = cache_of_three();
    for step in 0..50u64 {
        let key = (step * 7 % 11) as i64;
        match step % 4 {
            0 => cache.insert_at(&key, &1, step * MS),
            1 => {
                cache.get_at(&key, step * MS);
            }
            2 => {
                cache.retrieve_or_compute_at(&key, step * MS);
            }
            _ => {
                cache.probe(&key, step * MS);
            }
        }
        assert!(cache.len() <= 3);
    }
    assert_eq!(cache.len(), 3);
}

#[test]
fn an_insert_into_a_full_cache_evicts_the_least_recently_used_key_only() {
    let mut cache = cache_of_three();
    cache.insert_at(&1, &10, 0);
    cache.insert_at(&2, &20, 0);
    cache.insert_at(&3, &30, 0);
    assert_eq!(cache.len(), 3);

    cache.insert_at(&4, &40, 0);

    assert_eq!(cache.len(), 3);
    assert_eq!(cache.peek(&1), None);
    assert_eq!(cache.peek(&2).unwrap().value, 20);
    assert_eq!(cache.peek(&3).unwrap().value, 30);
    assert_eq!(cache.peek(&4).unwrap().value, 40);
}

#[test]
fn an_insert_of_a_held_key_evicts_nothing() {
    let mut cache = cache_of_three();
    cache.insert_at(&1, &10, 0);
    cache.insert_at(&2, &20, 0);
    cache.insert_at(&3, &30, 0);

    cache.insert_at(&1, &11, 5);

    assert_eq!(cache.len(), 3);
    assert_eq!(cache.peek(&1).unwrap().value, 11);
    assert_eq!(cache.peek(&2).unwrap().value, 20);
    assert_eq!(cache.peek(&3).unwrap().value, 30);
    // key 1 is now the most recently used, so key 2 is the next to go
    cache.insert_at(&4, &40, 6);
    assert_eq!(cache.peek(&2), None);
    assert_eq!(cache.peek(&1).unwrap().value, 11);
}

#[test]
fn a_read_promotes_its_key() {
    let mut cache = cache_of_three();
    cache.insert_at(&1, &2, 0);
    cache.insert_at(&2, &2, 0);
    assert_eq!(cache.get_at(&1, 1), Some(2));
    cache.insert_at(&3, &2, 2);
    cache.insert_at(&4, &2, 3);

    assert_eq!(cache.len(), 3);
    assert_eq!(cache.get_at(&2, 4), None);
    assert_eq!(cache.get_at(&1, 4), Some(2));
    assert_eq!(cache.get_at(&3, 4), Some(2));
    assert_eq!(cache.get_at(&4, 4), Some(2));
}

#[test]
fn a_peek_does_not_promote_its_key() {
    let mut cache = cache_of_three();
    cache.insert_at(&1, &2, 0);
    cache.insert_at(&2, &2, 0);
    assert_eq!(cache.peek(&1).unwrap().value, 2);
    cache.insert_at(&3, &2, 2);
    cache.insert_at(&4, &2, 3);

    assert_eq!(cache.peek(&1), None);
    assert_eq!(cache.peek(&2).unwrap().value, 2);
}

#[test]
fn an_inserted_value_is_served_until_the_positive_ttl_has_run_out() {
    let mut cache = cache_of_three();
    cache.insert_at(&7, &70, 1_000);

    assert_eq!(cache.get_at(&7, 1_000), Some(70));
    assert_eq!(cache.get_at(&7, 1_000 + 200 * MS - 1), Some(70));
    assert_eq!(cache.len(), 1);
    assert_eq!(cache.get_at(&7, 1_000 + 200 * MS), None);
    assert_eq!(cache.len(), 0);
}

#[test]
fn an_inserted_entry_is_ready_with_code_zero() {
    let mut cache = cache_of_three();
    cache.insert_at(&7, &70, 1_000);

    assert_eq!(
        cache.peek(&7),
        Some(Entry {
            value: 70,
            aux_code: 0,
            expires_at: 1_000 + 200 * u128::from(MS),
            state: EntryState::Ready,
        })
    );
    assert_eq!(cache.retrieve_or_compute_at(&7, 2_000), (70, 0));
}

#[test]
fn a_stale_entry_is_removed_by_the_lookup_that_finds_it() {
    let mut cache = cache_of_three();
    cache.insert_at(&1, &10, 0);
    cache.insert_at(&2, &20, 150 * MS);

    assert!(!cache.is_in_cache(&1, 200 * MS));
    assert_eq!(cache.len(), 1);
    assert!(cache.is_in_cache(&2, 200 * MS));
    assert_eq!(cache.len(), 1);
    assert!(!cache.is_in_cache(&3, 200 * MS));
}

#[test]
fn a_lookup_of_a_stale_entry_is_no_use_of_any_key() {
    let mut cache = cache_of_three();
    cache.insert_at(&1, &10, 0);
    cache.insert_at(&2, &20, 100 * MS);
    cache.insert_at(&3, &30, 100 * MS);
    // key 1 is stale at 250 ms: the lookup removes it and promotes nothing
    assert_eq!(cache.get_at(&1, 250 * MS), None);
    cache.insert_at(&4, &40, 250 * MS);
    cache.insert_at(&5, &50, 250 * MS);

    assert_eq!(cache.peek(&2), None);
    assert_eq!(cache.peek(&3).unwrap().value, 30);
}

#[test]
fn a_round_trip_returns_the_value() {
    let mut cache = cache_of_three();
    for (key, value) in [(0, 0), (1, -1), (-5, i64::MAX), (i64::MIN, i64::MIN), (i64::MAX, 7)] {
        cache.insert_at(&key, &value, 42);
        assert_eq!(cache.get_at(&key, 42), Some(value));
    }
}

#[test]
fn a_round_trip_with_a_zero_ttl_returns_nothing() {
    let mut cache = Cache::new(3, double_or_fail, 0, 0);
    cache.insert_at(&1, &2, 42);
    assert_eq!(cache.get_at(&1, 42), None);
    assert_eq!(cache.len(), 0);
}

#[test]
fn a_deadline_beyond_the_last_timestamp_is_kept_exactly() {
    let mut cache = Cache::new(3, double_or_fail, u64::MAX, 1);
    cache.insert_at(&1, &2, u64::MAX);
    assert_eq!(cache.peek(&1).unwrap().expires_at, 2 * u128::from(u64::MAX));
    assert_eq!(cache.get_at(&1, u64::MAX), Some(2));
}

#[test]
fn a_failure_is_served_for_the_negative_ttl_only() {
    let mut cache = cache_of_three();

    assert_eq!(cache.retrieve_or_compute_at(&-1, 0), (0, 0));
    assert_eq!(
        cache.peek(&-1),
        Some(Entry {
            value: 0,
            aux_code: 0,
            expires_at: 100 * u128::from(MS),
            state: EntryState::Failed,
        })
    );
    assert_eq!(cache.get_at(&-1, 100 * MS - 1), Some(0));
    // stale after the negative TTL, though the positive TTL has not run out
    assert_eq!(cache.get_at(&-1, 100 * MS), None);
    assert_eq!(cache.peek(&-1), None);
}

#[test]
fn a_success_is_served_for_the_positive_ttl() {
    let mut cache = cache_of_three();

    assert_eq!(cache.retrieve_or_compute_at(&21, 10), (42, 1));
    assert_eq!(
        cache.peek(&21),
        Some(Entry {
            value: 42,
            aux_code: 1,
            expires_at: 10 + 200 * u128::from(MS),
            state: EntryState::Ready,
        })
    );
    assert_eq!(cache.get_at(&21, 10 + 200 * MS - 1), Some(42));
    assert_eq!(cache.get_at(&21, 10 + 200 * MS), None);
}

#[test]
fn the_doubling_scenario() {
    let mut cache = cache_of_three();

    assert_eq!(cache.retrieve_or_compute_at(&1, 0), (2, 1));
    assert_eq!(cache.retrieve_or_compute_at(&-1, 0), (0, 0));
    let first = cache.peek(&-1).unwrap();
    assert_eq!(first.state, EntryState::Failed);
    assert_eq!(first.expires_at, 100 * u128::from(MS));

    assert_eq!(cache.retrieve_or_compute_at(&-1, 105 * MS), (0, 0));
    let second = cache.peek(&-1).unwrap();
    assert_eq!(second.state, EntryState::Failed);
    assert_eq!(second.expires_at, 205 * u128::from(MS));
    assert_eq!(cache.retrieve_or_compute_at(&1, 105 * MS), (2, 1));
    assert_eq!(cache.len(), 2);
}

#[test]
fn requests_within_the_window_compute_once() {
    let calls = Cell::new(0u32);
    let mut cache = Cache::new(
        3,
        |key: Key| {
            calls.set(calls.get() + 1);
            (key * 2, calls.get() as u8, true)
        },
        200 * MS,
        100 * MS,
    );

    for now in [0, 1, 50 * MS, 199 * MS, 200 * MS - 1] {
        assert_eq!(cache.retrieve_or_compute_at(&9, now), (18, 1));
    }
    assert_eq!(calls.get(), 1);
    assert_eq!(cache.len(), 1);

    assert_eq!(cache.retrieve_or_compute_at(&9, 200 * MS), (18, 2));
    assert_eq!(calls.get(), 2);
    assert_eq!(cache.peek(&9).unwrap().expires_at, 400 * u128::from(MS));
}

#[test]
fn a_failure_is_recomputed_after_the_negative_ttl() {
    let calls = Cell::new(0u32);
    let mut cache = Cache::new(
        3,
        |_key: Key| {
            calls.set(calls.get() + 1);
            (0, 0, false)
        },
        200 * MS,
        100 * MS,
    );

    cache.retrieve_or_compute_at(&-1, 0);
    cache.retrieve_or_compute_at(&-1, 99 * MS);
    assert_eq!(calls.get(), 1);
    cache.retrieve_or_compute_at(&-1, 105 * MS);
    assert_eq!(calls.get(), 2);
}

#[test]
fn a_new_cache_is_empty() {
    let mut cache = cache_of_three();
    assert_eq!(cache.len(), 0);
    assert_eq!(cache.peek(&0), None);
    assert_eq!(cache.get_at(&0, 0), None);
}

#[test]
fn a_cache_of_one_keeps_the_last_key() {
    let mut cache = Cache::new(1, double_or_fail, 200 * MS, 100 * MS);
    cache.insert_at(&1, &10, 0);
    cache.insert_at(&2, &20, 0);
    assert_eq!(cache.len(), 1);
    assert_eq!(cache.get_at(&1, 0), None);
    assert_eq!(cache.get_at(&2, 0), Some(20));
}

#[test]
fn a_capacity_of_zero_is_a_configuration_error() {
    match Cache::try_new(0, double_or_fail, 200 * MS, 100 * MS) {
        Err(error) => assert_eq!(error, ConfigurationError::ZeroCapacity),
        Ok(_) => panic!("a cache of capacity zero was made"),
    }
}

#[test]
fn a_capacity_beyond_the_limit_is_a_configuration_error() {
    match Cache::try_new(MAX_CAPACITY + 1, double_or_fail, 200 * MS, 100 * MS) {
        Err(error) => assert_eq!(error, ConfigurationError::CapacityTooLarge),
        Ok(_) => panic!("a cache beyond the limit was made"),
    }
    match Cache::try_new(usize::MAX, double_or_fail, 200 * MS, 100 * MS) {
        Err(error) => assert_eq!(error, ConfigurationError::CapacityTooLarge),
        Ok(_) => panic!("a cache beyond the limit was made"),
    }
}

#[test]
fn a_valid_capacity_makes_a_cache() {
    match Cache::try_new(2, double_or_fail, 200 * MS, 100 * MS) {
        Ok(mut cache) => {
            cache.insert_at(&1, &1, 0);
            cache.insert_at(&2, &2, 0);
            cache.insert_at(&3, &3, 0);
            assert_eq!(cache.len(), 2);
        }
        Err(_) => panic!("a capacity of two was refused"),
    }
}
