//! The cache: an eviction store of entries, a TTL policy, a clock and the
//! computation that is run for a key that has no servable entry.
//!
//! A request for a key goes through two steps. [`Cache::probe`] decides
//! between a hit, a computation that is already under way, and a miss; on a
//! miss it publishes a placeholder, so that every later probe of the key sees
//! that someone computes. [`Cache::settle`] replaces the placeholder by the
//! outcome. A caller that shares the cache between threads takes its lock
//! round each step and runs the computation between them;
//! [`Cache::retrieve_or_compute`] runs both steps and the computation in one
//! go for a caller that has the cache to itself.

use vstd::prelude::*;
use crate::clock::Clock;
use crate::entry::{AuxCode, Entry, Key, Value};
use crate::store::{
    entry_of, evicts, holds, lemma_promoted, lemma_stored, lemma_without, promoted, stored,
    well_formed, without, EvictionStore, MAX_CAPACITY,
};
use crate::ttl::{Timestamp, Ttl, TtlPolicy};

verus! {

/// Why a cache cannot be made.
#[derive(Debug, PartialEq, Eq, Clone, Copy, Structural)]
pub enum ConfigurationError {
    /// A cache that can hold nothing was asked for.
    ZeroCapacity,
    /// The capacity is beyond [`MAX_CAPACITY`].
    CapacityTooLarge,
}

/// What a requester of a key has to do next.
#[derive(Debug, PartialEq, Eq, Clone, Copy, Structural)]
pub enum Probe {
    /// The key has a servable entry; this is its payload.
    Hit { value: Value, aux_code: AuxCode },
    /// Another requester computes the key: wait for its outcome and probe
    /// again.
    Wait,
    /// The key has no servable entry and nobody computes it. A placeholder is
    /// published, with the time of the probe as its deadline; the requester
    /// runs the computation and settles the key.
    Compute,
}

/// The cache as a mathematical value.
#[verifier::ext_equal]
pub struct CacheModel {
    /// The key/entry pairs, most recently used first.
    pub items: Seq<(Key, Entry)>,
    /// The number of pairs the cache can hold.
    pub capacity: nat,
    /// How long outcomes stay fresh.
    pub policy: TtlPolicy,
}

/// What holds of an entry that is stored: it has left the state `Empty`, and
/// while it is a placeholder it has the payload it was made with, zero, and a
/// time as its deadline.
pub open spec fn begun(found: Option<Entry>) -> bool {
    found matches Some(e) ==> !(e.state is Empty) && (e.state is Computing ==> e.value == 0
        && e.aux_code == 0 && e.expires_at <= u64::MAX)
}

impl CacheModel {
    /// A cache with nothing in it.
    pub open spec fn empty(capacity: nat, policy: TtlPolicy) -> CacheModel {
        CacheModel { items: Seq::empty(), capacity, policy }
    }

    /// The same cache with other pairs.
    pub open spec fn with_items(self, items: Seq<(Key, Entry)>) -> CacheModel {
        CacheModel { items, capacity: self.capacity, policy: self.policy }
    }

    /// What holds of every cache: keys are distinct, the pairs are no more
    /// than the capacity, no stored entry is `Empty`, and every placeholder
    /// is as [`Cache::probe`] publishes it.
    pub open spec fn inv(self) -> bool {
        &&& well_formed(self.items, self.capacity)
        &&& forall|key: Key| begun(#[trigger] self.entry(key))
    }

    /// The number of pairs held.
    pub open spec fn len(self) -> nat {
        self.items.len()
    }

    /// The entry stored under a key.
    pub open spec fn entry(self, key: Key) -> Option<Entry> {
        entry_of(self.items, key)
    }

    /// Whether the key has an entry that can be served at `now`.
    pub open spec fn fresh(self, key: Key, now: Timestamp) -> bool {
        self.entry(key) matches Some(e) && e.servable_at(now)
    }

    /// Whether the key has a placeholder.
    pub open spec fn in_flight(self, key: Key) -> bool {
        self.entry(key) matches Some(e) && e.in_flight()
    }

    /// The payload that a hit on the key serves.
    pub open spec fn payload(self, key: Key) -> (Value, AuxCode) {
        (self.entry(key).unwrap().value, self.entry(key).unwrap().aux_code)
    }

    /// The cache after the key was looked up at `now`: a fresh entry becomes
    /// the most recently used, a placeholder stays where it is, and any other
    /// entry of the key is stale and leaves.
    pub open spec fn looked_up(self, key: Key, now: Timestamp) -> CacheModel {
        if self.fresh(key, now) {
            self.with_items(promoted(self.items, key))
        } else if self.in_flight(key) {
            self
        } else {
            self.with_items(without(self.items, key))
        }
    }

    /// The cache after `entry` was stored under `key`.
    pub open spec fn put(self, key: Key, entry: Entry) -> CacheModel {
        self.with_items(stored(self.items, self.capacity, key, entry))
    }

    /// The cache after `value` was inserted under `key` at `now`.
    pub open spec fn inserted(self, key: Key, value: Value, now: Timestamp) -> CacheModel {
        self.put(key, Entry::supplied(value, now, self.policy))
    }

    /// What reading the key at `now` returns.
    pub open spec fn got(self, key: Key, now: Timestamp) -> Option<Value> {
        if self.fresh(key, now) {
            Some(self.payload(key).0)
        } else {
            None
        }
    }

    /// What probing the key at `now` returns.
    pub open spec fn probe(self, key: Key, now: Timestamp) -> Probe {
        if self.fresh(key, now) {
            Probe::Hit { value: self.payload(key).0, aux_code: self.payload(key).1 }
        } else if self.in_flight(key) {
            Probe::Wait
        } else {
            Probe::Compute
        }
    }

    /// The cache after the key was probed at `now`: as after a lookup, and on
    /// a miss with a placeholder for the key in front.
    pub open spec fn probed(self, key: Key, now: Timestamp) -> CacheModel {
        if self.probe(key, now) is Compute {
            self.looked_up(key, now).put(key, Entry::placeholder(now))
        } else {
            self.looked_up(key, now)
        }
    }

    /// The cache after an outcome for the key was recorded at `now`.
    pub open spec fn settled(
        self,
        key: Key,
        outcome: (Value, AuxCode, bool),
        now: Timestamp,
    ) -> CacheModel {
        self.put(key, Entry::outcome(outcome.0, outcome.1, outcome.2, now, self.policy))
    }

    /// What a request for the key returns when it probes at `now` and, on
    /// anything but a hit, the computation gives `outcome`.
    pub open spec fn answer(
        self,
        key: Key,
        now: Timestamp,
        outcome: (Value, AuxCode, bool),
    ) -> (Value, AuxCode) {
        if self.fresh(key, now) {
            self.payload(key)
        } else {
            (outcome.0, outcome.1)
        }
    }

    /// The cache after a request for the key that probes at `now` and, on
    /// anything but a hit, records `outcome` at `done`.
    pub open spec fn resolved(
        self,
        key: Key,
        now: Timestamp,
        outcome: (Value, AuxCode, bool),
        done: Timestamp,
    ) -> CacheModel {
        if self.fresh(key, now) {
            self.probed(key, now)
        } else {
            self.probed(key, now).settled(key, outcome, done)
        }
    }

    /// A lookup keeps the invariant, and touches the entry of no other key.
    pub proof fn lemma_looked_up(self, key: Key, now: Timestamp)
        requires
            self.inv(),
        ensures
            self.looked_up(key, now).inv(),
            self.looked_up(key, now).len() <= self.len(),
            forall|other: Key|
                other != key ==> #[trigger] self.looked_up(key, now).entry(other) == self.entry(
                    other,
                ),
            self.looked_up(key, now).entry(key) == (if self.fresh(key, now) || self.in_flight(
                key,
            ) {
                self.entry(key)
            } else {
                None
            }),
    {
        lemma_promoted(self.items, self.capacity, key);
        lemma_without(self.items, self.capacity, key);
        let after = self.looked_up(key, now);
        assert forall|other: Key| begun(#[trigger] after.entry(other)) by {
            if other != key || self.fresh(key, now) || self.in_flight(key) {
                assert(after.entry(other) == self.entry(other));
            }
        }
    }

    /// Storing an outcome or a placeholder keeps the invariant and makes the
    /// entry the key's own.
    pub proof fn lemma_put(self, key: Key, entry: Entry)
        requires
            self.inv(),
            begun(Some(entry)),
        ensures
            self.put(key, entry).inv(),
            self.put(key, entry).entry(key) == Some(entry),
            self.put(key, entry).len() <= self.capacity,
    {
        lemma_stored(self.items, self.capacity, key, entry);
        let after = self.put(key, entry);
        assert forall|other: Key| begun(#[trigger] after.entry(other)) by {
            if other != key {
                if evicts(self.items, self.capacity, key, other) {
                    assert(!holds(after.items, other));
                } else {
                    assert(after.entry(other) == self.entry(other));
                }
            }
        }
    }

    /// A probe keeps the invariant.
    pub proof fn lemma_probed(self, key: Key, now: Timestamp)
        requires
            self.inv(),
        ensures
            self.probed(key, now).inv(),
    {
        self.lemma_looked_up(key, now);
        if self.probe(key, now) is Compute {
            self.looked_up(key, now).lemma_put(key, Entry::placeholder(now));
        }
    }
}

/// A computation that can be run on every key.
pub open spec fn total<F: Fn(Key) -> (Value, AuxCode, bool)>(computation: F) -> bool {
    forall|key: Key| call_requires(computation, (key,))
}

/// A cache of at most `capacity` entries with least-recently-used eviction,
/// a time-to-live per entry, and one computation at a time per missing key.
pub struct Cache<F> {
    store: EvictionStore,
    miss_handler: F,
    policy: TtlPolicy,
    clock: Clock,
}

impl<F> View for Cache<F> {
    type V = CacheModel;

    closed spec fn view(&self) -> CacheModel {
        CacheModel {
            items: self.store.items(),
            capacity: self.store.capacity(),
            policy: self.policy,
        }
    }
}

impl<F: Fn(Key) -> (Value, AuxCode, bool)> Cache<F> {
    /// The computation that is run on a miss.
    pub closed spec fn handler(&self) -> F {
        self.miss_handler
    }

    /// What every function of the cache expects and keeps: the invariant of
    /// the model, and a computation that can be run on every key.
    pub open spec fn wf(&self) -> bool {
        &&& self@.inv()
        &&& total(self.handler())
    }

    /// Makes an empty cache that holds up to `size` entries, runs
    /// `miss_handler` for missing keys, serves successful outcomes and
    /// inserted values for `positive_ttl` and failed outcomes for
    /// `negative_ttl`.
    ///
    /// A size of zero or beyond [`MAX_CAPACITY`] is a configuration error;
    /// [`Cache::try_new`] reports it as a value.
    pub fn new(size: usize, miss_handler: F, positive_ttl: Ttl, negative_ttl: Ttl) -> (cache: Self)
        requires
            0 < size <= MAX_CAPACITY,
            total(miss_handler),
        ensures
            cache.wf(),
            cache@ == CacheModel::empty(
                size as nat,
                TtlPolicy { positive: positive_ttl, negative: negative_ttl },
            ),
            cache.handler() == miss_handler,
    {
        let cache = Cache {
            store: EvictionStore::new(size),
            miss_handler,
            policy: TtlPolicy::new(positive_ttl, negative_ttl),
            clock: Clock::start(),
        };
        proof {
            let model = cache@;
            assert forall|key: Key| begun(#[trigger] model.entry(key)) by {
                assert(!holds(model.items, key));
            }
        }
        cache
    }

    /// Makes a cache as [`Cache::new`] does, or says why the size is not one
    /// that a cache can have.
    pub fn try_new(size: usize, miss_handler: F, positive_ttl: Ttl, negative_ttl: Ttl) -> (made:
        Result<Self, ConfigurationError>)
        requires
            total(miss_handler),
        ensures
            made is Ok <==> 0 < size <= MAX_CAPACITY,
            made matches Ok(cache) ==> cache.wf(),
            made matches Ok(cache) ==> cache.handler() == miss_handler,
            made matches Ok(cache) ==> cache@ == CacheModel::empty(
                size as nat,
                TtlPolicy { positive: positive_ttl, negative: negative_ttl },
            ),
            made matches Err(error) ==> error == (if size == 0 {
                ConfigurationError::ZeroCapacity
            } else {
                ConfigurationError::CapacityTooLarge
            }),
    {
        if size == 0 {
            Err(ConfigurationError::ZeroCapacity)
        } else if size > MAX_CAPACITY {
            Err(ConfigurationError::CapacityTooLarge)
        } else {
            Ok(Cache::new(size, miss_handler, positive_ttl, negative_ttl))
        }
    }

    /// The reading of the cache's clock. The functions that take no time
    /// read it themselves.
    pub fn now(&self) -> Timestamp {
        self.clock.now()
    }

    /// The number of entries held.
    pub fn len(&self) -> (n: usize)
        ensures
            n == self@.len(),
    {
        self.store.len()
    }

    /// The key's entry as it is stored, whatever its state and age. The
    /// order of use stays as it is.
    pub fn peek(&self, key: &Key) -> (found: Option<Entry>)
        ensures
            found == self@.entry(*key),
    {
        self.store.peek(*key)
    }

    /// Looks the key up at `now` and says whether it has an entry that can
    /// be served. A fresh entry becomes the most recently used; a stale one
    /// is removed; a placeholder is left alone.
    pub fn is_in_cache(&mut self, key: &Key, now: Timestamp) -> (fresh: bool)
        requires
            old(self).wf(),
        ensures
            final(self).wf(),
            final(self).handler() == old(self).handler(),
            fresh == old(self)@.fresh(*key, now),
            final(self)@ == old(self)@.looked_up(*key, now),
    {
        proof {
            self@.lemma_looked_up(*key, now);
        }
        let fresh: bool = match self.store.peek(*key) {
            None => false,
            Some(entry) => {
                if entry.is_servable(now) {
                    let _ = self.store.get_promoting(*key);
                    true
                } else if entry.is_in_flight() {
                    false
                } else {
                    let _ = self.store.remove(*key);
                    false
                }
            },
        };
        assert(self@ == old(self)@.looked_up(*key, now));
        fresh
    }

    /// Writes `value` under `key` as a `Ready` entry with code 0 that stays
    /// fresh for the positive TTL from `now`. The key becomes the most
    /// recently used; a full cache drops its least recently used entry to make
    /// room for a new key.
    pub fn insert_at(&mut self, key: &Key, value: &Value, now: Timestamp)
        requires
            old(self).wf(),
        ensures
            final(self).wf(),
            final(self).handler() == old(self).handler(),
            final(self)@ == old(self)@.inserted(*key, *value, now),
    {
        let expiration: u128 = self.policy.expiry(now, true);
        let entry: Entry = Entry::new(*value, expiration, 0).make_ready();
        proof {
            self@.lemma_put(*key, entry);
        }
        let _ = self.store.put(*key, entry);
        assert(self@ == old(self)@.inserted(*key, *value, now));
    }

    /// [`Cache::insert_at`] at the time the clock shows.
    pub fn insert(&mut self, key: &Key, value: &Value)
        requires
            old(self).wf(),
        ensures
            final(self).wf(),
            final(self).handler() == old(self).handler(),
            exists|now: Timestamp| final(self)@ == #[trigger] old(self)@.inserted(*key, *value, now),
    {
        let now: Timestamp = self.clock.now();
        self.insert_at(key, value, now)
    }

    /// The key's value if the key has an entry that can be served at `now`.
    /// The lookup does to the cache what [`Cache::is_in_cache`] does.
    pub fn get_at(&mut self, key: &Key, now: Timestamp) -> (value: Option<Value>)
        requires
            old(self).wf(),
        ensures
            final(self).wf(),
            final(self).handler() == old(self).handler(),
            value == old(self)@.got(*key, now),
            final(self)@ == old(self)@.looked_up(*key, now),
    {
        proof {
            self@.lemma_looked_up(*key, now);
        }
        if self.is_in_cache(key, now) {
            match self.store.peek(*key) {
                Some(entry) => Some(entry.value),
                None => None,
            }
        } else {
            None
        }
    }

    /// [`Cache::get_at`] at the time the clock shows.
    pub fn get(&mut self, key: &Key) -> (value: Option<Value>)
        requires
            old(self).wf(),
        ensures
            final(self).wf(),
            final(self).handler() == old(self).handler(),
            exists|now: Timestamp|
                value == #[trigger] old(self)@.got(*key, now) && final(self)@ == old(
                    self,
                )@.looked_up(*key, now),
    {
        let now: Timestamp = self.clock.now();
        self.get_at(key, now)
    }

    /// The first step of a request: looks the key up at `now` and decides
    /// what the requester does next. On [`Probe::Compute`] a placeholder for
    /// the key has been published as the most recently used entry.
    pub fn probe(&mut self, key: &Key, now: Timestamp) -> (step: Probe)
        requires
            old(self).wf(),
        ensures
            final(self).wf(),
            final(self).handler() == old(self).handler(),
            step == old(self)@.probe(*key, now),
            final(self)@ == old(self)@.probed(*key, now),
    {
        proof {
            self@.lemma_looked_up(*key, now);
            self@.lemma_probed(*key, now);
        }
        let fresh: bool = self.is_in_cache(key, now);
        match self.store.peek(*key) {
            Some(entry) => {
                if fresh {
                    Probe::Hit { value: entry.value, aux_code: entry.aux_code }
                } else {
                    Probe::Wait
                }
            },
            None => {
                let placeholder: Entry = Entry::default(now).start();
                let _ = self.store.get_or_insert_with(*key, placeholder);
                Probe::Compute
            },
        }
    }

    /// The last step of a request that had to compute: records at `now` what
    /// the computation gave for the key, as a `Ready` entry with the positive
    /// TTL on success and as a `Failed` entry with the negative TTL on
    /// failure, and returns what the requester is served. The entry replaces
    /// whatever the key had, placeholder or not, and the key becomes the most
    /// recently used.
    pub fn settle(&mut self, key: &Key, outcome: (Value, AuxCode, bool), now: Timestamp) -> (served:
        (Value, AuxCode))
        requires
            old(self).wf(),
        ensures
            final(self).wf(),
            final(self).handler() == old(self).handler(),
            served == (outcome.0, outcome.1),
            final(self)@ == old(self)@.settled(*key, outcome, now),
    {
        let entry: Entry = Entry::default(now).start().settle(
            outcome.0,
            outcome.1,
            outcome.2,
            now,
            &self.policy,
        );
        proof {
            self@.lemma_put(*key, entry);
        }
        let _ = self.store.put(*key, entry);
        assert(self@ == old(self)@.settled(*key, outcome, now));
        (outcome.0, outcome.1)
    }

    /// A whole request with one reading of time: a hit is served from the
    /// cache; otherwise the computation is run and its outcome recorded and
    /// served. The caller has the cache to itself, so a placeholder found
    /// here belongs to nobody who could still settle it, and the computation
    /// is run for it as on a miss.
    pub fn retrieve_or_compute_at(&mut self, key: &Key, now: Timestamp) -> (served: (
        Value,
        AuxCode,
    ))
        requires
            old(self).wf(),
        ensures
            final(self).wf(),
            final(self).handler() == old(self).handler(),
            old(self)@.fresh(*key, now) ==> served == old(self)@.payload(*key),
            old(self)@.fresh(*key, now) ==> final(self)@ == old(self)@.looked_up(*key, now),
            !old(self)@.fresh(*key, now) ==> exists|outcome: (Value, AuxCode, bool)|
                call_ensures(old(self).handler(), (*key,), outcome) && served == (
                    outcome.0,
                    outcome.1,
                ) && final(self)@ == #[trigger] old(self)@.resolved(*key, now, outcome, now),
    {
        match self.probe(key, now) {
            Probe::Hit { value, aux_code } => (value, aux_code),
            _ => {
                let outcome: (Value, AuxCode, bool) = (self.miss_handler)(*key);
                let served = self.settle(key, outcome, now);
                assert(self@ == old(self)@.resolved(*key, now, outcome, now));
                served
            },
        }
    }

    /// A whole request by the clock: the key is probed at one reading; on
    /// anything but a hit the computation is run and its outcome recorded at
    /// a second reading, taken when the computation has ended.
    pub fn retrieve_or_compute(&mut self, key: &Key) -> (served: (Value, AuxCode))
        requires
            old(self).wf(),
        ensures
            final(self).wf(),
            final(self).handler() == old(self).handler(),
            exists|now: Timestamp, outcome: (Value, AuxCode, bool), done: Timestamp|
                (old(self)@.fresh(*key, now) || call_ensures(old(self).handler(), (*key,), outcome))
                    && served == old(self)@.answer(*key, now, outcome) && final(self)@
                    == #[trigger] old(self)@.resolved(*key, now, outcome, done),
    {
        let now: Timestamp = self.clock.now();
        match self.probe(key, now) {
            Probe::Hit { value, aux_code } => {
                proof {
                    let outcome: (Value, AuxCode, bool) = (value, aux_code, true);
                    assert(self@ == old(self)@.resolved(*key, now, outcome, now));
                }
                (value, aux_code)
            },
            _ => {
                let outcome: (Value, AuxCode, bool) = (self.miss_handler)(*key);
                let done: Timestamp = self.clock.now();
                let served = self.settle(key, outcome, done);
                proof {
                    assert(self@ == old(self)@.resolved(*key, now, outcome, done));
                }
                served
            },
        }
    }
}

} // verus!
