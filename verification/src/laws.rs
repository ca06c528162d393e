//! What holds of the cache's operations taken together. Each law is stated
//! over [`CacheModel`], the value in which the contracts of [`crate::cache::Cache`]
//! describe the cache, so it holds of every cache whose functions are called
//! in the way the law describes.

use vstd::prelude::*;
use crate::cache::{CacheModel, Probe};
use crate::entry::{AuxCode, Entry, EntryState, Key, Value};
use crate::store::{
    holds, lemma_promoted, lemma_promoted_order, lemma_rank, lemma_rank_in_range, lemma_stored,
    lemma_without, rank, without,
};
use crate::ttl::Timestamp;

verus! {

/// One call on the cache, without its time.
pub enum Operation {
    /// `insert_at(key, value, ..)`
    Insert { key: Key, value: Value },
    /// `get_at(key, ..)` or `is_in_cache(key, ..)`
    Get { key: Key },
    /// `probe(key, ..)`
    Probe { key: Key },
    /// `settle(key, outcome, ..)`
    Settle { key: Key, outcome: (Value, AuxCode, bool) },
}

/// The cache after one call made at `now`.
pub open spec fn step(model: CacheModel, operation: Operation, now: Timestamp) -> CacheModel {
    match operation {
        Operation::Insert { key, value } => model.inserted(key, value, now),
        Operation::Get { key } => model.looked_up(key, now),
        Operation::Probe { key } => model.probed(key, now),
        Operation::Settle { key, outcome } => model.settled(key, outcome, now),
    }
}

/// The cache after a run of calls, each with the time at which it is made.
pub open spec fn run(model: CacheModel, calls: Seq<(Operation, Timestamp)>) -> CacheModel
    decreases calls.len(),
{
    if calls.len() == 0 {
        model
    } else {
        step(run(model, calls.drop_last()), calls.last().0, calls.last().1)
    }
}

/// Capacity bound: whatever calls are made, in whatever order and at whatever
/// times, the cache holds no more entries than its capacity, and the capacity
/// and the policy stay what they were. As this holds of every run, it holds
/// after each call of a run.
pub proof fn law_capacity_bound(model: CacheModel, calls: Seq<(Operation, Timestamp)>)
    requires
        model.inv(),
    ensures
        run(model, calls).inv(),
        run(model, calls).len() <= model.capacity,
        run(model, calls).capacity == model.capacity,
        run(model, calls).policy == model.policy,
    decreases calls.len(),
{
    if calls.len() > 0 {
        law_capacity_bound(model, calls.drop_last());
        let before = run(model, calls.drop_last());
        let now = calls.last().1;
        match calls.last().0 {
            Operation::Insert { key, value } => {
                before.lemma_put(key, Entry::supplied(value, now, before.policy));
            },
            Operation::Get { key } => {
                before.lemma_looked_up(key, now);
            },
            Operation::Probe { key } => {
                before.lemma_probed(key, now);
            },
            Operation::Settle { key, outcome } => {
                before.lemma_put(
                    key,
                    Entry::outcome(outcome.0, outcome.1, outcome.2, now, before.policy),
                );
            },
        }
    }
}

/// Eviction: an insert of a new key into a full cache drops exactly one
/// entry, the least recently used one. The new pair stands in front of the
/// others, which keep their order.
pub proof fn law_insert_evicts_lru(model: CacheModel, key: Key, value: Value, now: Timestamp)
    requires
        model.inv(),
        model.len() == model.capacity,
        model.entry(key) is None,
    ensures
        model.inserted(key, value, now).items == seq![
            (key, Entry::supplied(value, now, model.policy)),
        ] + model.items.drop_last(),
        model.inserted(key, value, now).len() == model.capacity,
        model.inserted(key, value, now).entry(model.items.last().0) is None,
        forall|other: Key|
            other != key && other != model.items.last().0 ==> #[trigger] model.inserted(
                key,
                value,
                now,
            ).entry(other) == model.entry(other),
{
    lemma_stored(model.items, model.capacity, key, Entry::supplied(value, now, model.policy));
}

/// No eviction without need: an insert into a cache that has room, or of a
/// key that the cache holds, drops nothing.
pub proof fn law_insert_keeps_the_rest(model: CacheModel, key: Key, value: Value, now: Timestamp)
    requires
        model.inv(),
        model.len() < model.capacity || model.entry(key) is Some,
    ensures
        model.inserted(key, value, now).len() == (if model.entry(key) is Some {
            model.len()
        } else {
            model.len() + 1
        }),
        forall|other: Key|
            other != key ==> #[trigger] model.inserted(key, value, now).entry(other)
                == model.entry(other),
{
    lemma_stored(model.items, model.capacity, key, Entry::supplied(value, now, model.policy));
}

/// Positive TTL: a value is read back at `now` exactly as
/// long as the positive TTL has not run out.
pub proof fn law_insert_expires(
    model: CacheModel,
    key: Key,
    value: Value,
    inserted_at: Timestamp,
    now: Timestamp,
)
    requires
        model.inv(),
    ensures
        model.inserted(key, value, inserted_at).got(key, now) == (if now < inserted_at
            + model.policy.positive {
            Some(value)
        } else {
            None
        }),
{
    model.lemma_put(key, Entry::supplied(value, inserted_at, model.policy));
}

/// Round trip: a value that was inserted is read back at the same instant,
/// provided the positive TTL is not zero.
pub proof fn law_round_trip(model: CacheModel, key: Key, value: Value, now: Timestamp)
    requires
        model.inv(),
        model.policy.positive > 0,
    ensures
        model.inserted(key, value, now).got(key, now) == Some(value),
{
    law_insert_expires(model, key, value, now, now);
}

/// TTL by outcome: an outcome recorded at `settled_at` is a `Ready` entry
/// served for the positive TTL if the computation succeeded, and a `Failed`
/// entry served for the negative TTL if it failed. From the end of that span
/// on, a probe asks for the computation again, however much of the other
/// span is left.
pub proof fn law_outcome_expires(
    model: CacheModel,
    key: Key,
    outcome: (Value, AuxCode, bool),
    settled_at: Timestamp,
    now: Timestamp,
)
    requires
        model.inv(),
    ensures
        model.settled(key, outcome, settled_at).entry(key) == Some(
            (Entry {
                value: outcome.0,
                aux_code: outcome.1,
                expires_at: (settled_at + model.policy.ttl_for(outcome.2)) as u128,
                state: (if outcome.2 {
                    EntryState::Ready
                } else {
                    EntryState::Failed
                }),
            }),
        ),
        model.settled(key, outcome, settled_at).probe(key, now) == (if now < settled_at
            + model.policy.ttl_for(outcome.2) {
            (Probe::Hit { value: outcome.0, aux_code: outcome.1 })
        } else {
            Probe::Compute
        }),
{
    model.lemma_put(
        key,
        Entry::outcome(outcome.0, outcome.1, outcome.2, settled_at, model.policy),
    );
}

/// Recomputation: a request that finds no fresh entry records the outcome of
/// the computation with a deadline counted from the time of recording.
pub proof fn law_miss_records_outcome(
    model: CacheModel,
    key: Key,
    now: Timestamp,
    outcome: (Value, AuxCode, bool),
    done: Timestamp,
)
    requires
        model.inv(),
        !model.fresh(key, now),
    ensures
        model.resolved(key, now, outcome, done).inv(),
        model.answer(key, now, outcome) == (outcome.0, outcome.1),
        model.resolved(key, now, outcome, done).entry(key) == Some(
            Entry::outcome(outcome.0, outcome.1, outcome.2, done, model.policy),
        ),
{
    model.lemma_probed(key, now);
    model.probed(key, now).lemma_put(
        key,
        Entry::outcome(outcome.0, outcome.1, outcome.2, done, model.policy),
    );
}

/// Idempotent hit path: a request that finds a fresh entry is answered from
/// the cache, whatever the computation would give, and leaves the entry as it
/// is. So a second request, made while the entry is still fresh, is answered
/// from the cache with the same payload.
pub proof fn law_hit_is_idempotent(
    model: CacheModel,
    key: Key,
    now: Timestamp,
    later: Timestamp,
    outcome: (Value, AuxCode, bool),
    done: Timestamp,
)
    requires
        model.inv(),
        model.fresh(key, now),
        model.fresh(key, later),
    ensures
        model.answer(key, now, outcome) == model.payload(key),
        model.resolved(key, now, outcome, done).inv(),
        model.resolved(key, now, outcome, done).entry(key) == model.entry(key),
        model.resolved(key, now, outcome, done).fresh(key, later),
        model.resolved(key, now, outcome, done).answer(key, later, outcome) == model.answer(
            key,
            now,
            outcome,
        ),
{
    model.lemma_looked_up(key, now);
}

/// One computation per window: once a request has recorded an outcome, every
/// request made before the outcome's deadline is a hit and is answered with
/// that outcome, whatever the computation would give now.
pub proof fn law_computed_once_per_window(
    model: CacheModel,
    key: Key,
    outcome: (Value, AuxCode, bool),
    settled_at: Timestamp,
    now: Timestamp,
    other: (Value, AuxCode, bool),
)
    requires
        model.inv(),
        now < settled_at + model.policy.ttl_for(outcome.2),
    ensures
        model.settled(key, outcome, settled_at).probe(key, now) is Hit,
        model.settled(key, outcome, settled_at).answer(key, now, other) == (outcome.0, outcome.1),
{
    law_outcome_expires(model, key, outcome, settled_at, now);
}

/// Single flight: once a probe has asked a requester to compute a key, every
/// further probe of that key, at whatever time, is told to wait and changes
/// nothing. So between a miss and its outcome at most one requester computes.
pub proof fn law_single_flight(model: CacheModel, key: Key, now: Timestamp, later: Timestamp)
    requires
        model.inv(),
        model.probe(key, now) is Compute,
    ensures
        model.probed(key, now).in_flight(key),
        model.probed(key, now).probe(key, later) is Wait,
        model.probed(key, now).probed(key, later) == model.probed(key, now),
{
    model.lemma_looked_up(key, now);
    model.looked_up(key, now).lemma_put(key, Entry::placeholder(now));
}

/// A placeholder is never served: reading a key that is being computed
/// returns nothing and leaves the placeholder in place.
pub proof fn law_placeholder_is_not_served(model: CacheModel, key: Key, now: Timestamp)
    requires
        model.inv(),
        model.in_flight(key),
    ensures
        model.got(key, now) is None,
        model.looked_up(key, now) == model,
{
}

/// Recency promotion: a read that finds a fresh entry makes its key the most
/// recently used and changes nothing else. No key comes or goes, no entry
/// changes (a read does not extend a TTL), and the other keys keep the order
/// they had among themselves.
pub proof fn law_read_promotes(model: CacheModel, key: Key, now: Timestamp)
    requires
        model.inv(),
        model.fresh(key, now),
    ensures
        model.got(key, now) == Some(model.entry(key).unwrap().value),
        model.looked_up(key, now).inv(),
        model.looked_up(key, now).items == seq![(key, model.entry(key).unwrap())] + without(
            model.items,
            key,
        ),
        model.looked_up(key, now).len() == model.len(),
        forall|any: Key| #[trigger] model.looked_up(key, now).entry(any) == model.entry(any),
        forall|a: Key, b: Key|
            a != key && b != key && holds(model.items, a) && holds(model.items, b) ==> (rank(
                model.items,
                a,
            ) < rank(model.items, b) <==> #[trigger] rank(model.looked_up(key, now).items, a)
                < #[trigger] rank(model.looked_up(key, now).items, b)),
{
    let after = model.looked_up(key, now);
    model.lemma_looked_up(key, now);
    lemma_promoted(model.items, model.capacity, key);
    lemma_rank_in_range(model.items, key);
    assert forall|a: Key, b: Key|
        a != key && b != key && holds(model.items, a) && holds(model.items, b) implies (rank(
        model.items,
        a,
    ) < rank(model.items, b) <==> #[trigger] rank(after.items, a) < #[trigger] rank(
        after.items,
        b,
    )) by {
        lemma_promoted_order(model.items, model.capacity, key, a);
        lemma_promoted_order(model.items, model.capacity, key, b);
    }
}

/// A read decides who goes next: in a full cache of two entries or more, the
/// key of a fresh entry that was just read outlives the insert of a new key.
/// The entry that goes is the least recently used of the others.
pub proof fn law_read_spares_its_key(
    model: CacheModel,
    key: Key,
    now: Timestamp,
    newcomer: Key,
    value: Value,
    inserted_at: Timestamp,
)
    requires
        model.inv(),
        model.fresh(key, now),
        model.len() >= 2,
        model.entry(newcomer) is None,
    ensures
        model.looked_up(key, now).inserted(newcomer, value, inserted_at).entry(key)
            == model.entry(key),
        model.len() == model.capacity ==> model.looked_up(key, now).inserted(
            newcomer,
            value,
            inserted_at,
        ).entry(model.looked_up(key, now).items.last().0) is None,
        model.len() == model.capacity ==> model.looked_up(key, now).items.last().0 != key,
{
    let after = model.looked_up(key, now);
    law_read_promotes(model, key, now);
    lemma_promoted(model.items, model.capacity, key);
    lemma_stored(
        after.items,
        after.capacity,
        newcomer,
        Entry::supplied(value, inserted_at, after.policy),
    );
    if after.items.last().0 == key {
        lemma_rank(after.items, key, after.items.len() - 1);
    }
}

/// Recency: a hit makes its key the most recently used, and a lookup that
/// finds a stale entry removes it without touching any other key.
pub proof fn law_lookup_order(model: CacheModel, key: Key, now: Timestamp)
    requires
        model.inv(),
    ensures
        model.fresh(key, now) ==> model.looked_up(key, now).items[0] == (
            key,
            model.entry(key).unwrap(),
        ),
        !model.fresh(key, now) && !model.in_flight(key) ==> model.looked_up(key, now).entry(key)
            is None,
        forall|other: Key|
            other != key ==> #[trigger] model.looked_up(key, now).entry(other) == model.entry(
                other,
            ),
{
    model.lemma_looked_up(key, now);
    lemma_without(model.items, model.capacity, key);
    if model.fresh(key, now) {
        lemma_promoted(model.items, model.capacity, key);
        lemma_rank_in_range(model.items, key);
    }
}

} // verus!
