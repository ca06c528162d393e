//! A fixed-capacity, in-process cache that combines least-recently-used
//! eviction, a time-to-live per entry and single-flight computation of
//! missing keys.
//!
//! The crate is layered, leaves first:
//!
//! * [`ttl`]: timestamps, durations and the rule that turns the outcome of a
//!   computation into a deadline.
//! * [`entry`]: the record kept per key and its lifecycle
//!   (`Empty -> Computing -> Ready | Failed`).
//! * [`store`]: the bounded, recency-ordered key/entry store, kept in an
//!   [`lru::LruCache`].
//! * [`clock`]: the monotonic clock the cache reads when no time is given.
//! * [`cache`]: the cache proper: hits, misses, placeholders, outcomes.
//! * [`laws`]: what holds of the operations taken together.
//!
//! Every operation that depends on time comes in two forms. The form ending in
//! `_at` takes the current time as an argument and is specified exactly; the
//! other reads the clock and does the same with what the clock shows.

pub mod cache;
pub mod clock;
pub mod entry;
pub mod laws;
pub mod store;
pub mod ttl;

pub use cache::{Cache, CacheModel, ConfigurationError, Probe};
pub use entry::{AuxCode, Entry, EntryState, Key, Value};
pub use store::{EvictionStore, MAX_CAPACITY};
pub use ttl::{Deadline, Timestamp, Ttl, TtlPolicy};
