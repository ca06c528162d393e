//! The record kept for each key, and its lifecycle.

use vstd::prelude::*;
use crate::ttl::{before, is_before, Deadline, Timestamp, TtlPolicy};

verus! {

/// What the cache is keyed by.
pub type Key = i64;

/// What the cache holds.
pub type Value = i64;

/// A small code that the computation returns beside the value. The cache
/// hands it through unchanged.
pub type AuxCode = u8;

/// Where an entry stands in its lifecycle.
#[derive(Debug, PartialEq, Eq, Clone, Copy, Structural)]
pub enum EntryState {
    /// Freshly made, nothing computed or supplied yet.
    Empty,
    /// A computation for the key is under way; the payload is a placeholder.
    Computing,
    /// The payload is a value that was computed successfully or supplied.
    Ready,
    /// The computation failed; the payload is what it gave back.
    Failed,
}

impl EntryState {
    /// The transitions of a computation cycle. Nothing leads out of `Ready`
    /// or `Failed`: such an entry is replaced, never restarted in place.
    pub open spec fn steps_to(self, next: EntryState) -> bool {
        ||| self is Empty && next is Computing
        ||| self is Computing && next is Ready
        ||| self is Computing && next is Failed
    }

    /// Whether the state is one in which a computation has ended.
    pub open spec fn settled(self) -> bool {
        self is Ready || self is Failed
    }

    /// The state in which a computation with the given result ends.
    pub open spec fn terminal(success: bool) -> EntryState {
        if success {
            EntryState::Ready
        } else {
            EntryState::Failed
        }
    }

    /// Whether the state is one in which a computation has ended.
    pub fn is_settled(&self) -> (b: bool)
        ensures
            b == self.settled(),
    {
        match self {
            EntryState::Ready => true,
            EntryState::Failed => true,
            _ => false,
        }
    }
}

/// One cached record.
#[derive(Debug, PartialEq, Eq, Clone, Copy, Structural)]
pub struct Entry {
    pub value: Value,
    pub aux_code: AuxCode,
    pub expires_at: Deadline,
    pub state: EntryState,
}

impl Entry {
    /// The entry that [`Entry::default`] makes at `now`: zero payload, state
    /// `Empty`, and the time of its making as deadline, so that it is valid
    /// at no time from `now` on.
    pub open spec fn blank(now: Timestamp) -> Entry {
        Entry { value: 0, aux_code: 0, expires_at: now as u128, state: EntryState::Empty }
    }

    /// The entry published at `now` while a computation runs: a blank entry
    /// that has gone on to `Computing`. Its deadline is not one until which
    /// it is served: whether it is current is told by its state.
    pub open spec fn placeholder(now: Timestamp) -> Entry {
        Entry { value: 0, aux_code: 0, expires_at: now as u128, state: EntryState::Computing }
    }

    /// The entry that records an outcome at `now` under `policy`.
    pub open spec fn outcome(
        value: Value,
        aux_code: AuxCode,
        success: bool,
        now: Timestamp,
        policy: TtlPolicy,
    ) -> Entry {
        Entry {
            value,
            aux_code,
            expires_at: policy.deadline(now, success) as u128,
            state: EntryState::terminal(success),
        }
    }

    /// The entry that a direct insert of `value` at `now` writes.
    pub open spec fn supplied(value: Value, now: Timestamp, policy: TtlPolicy) -> Entry {
        Entry::outcome(value, 0, true, now, policy)
    }

    /// An entry is valid as long as its deadline lies ahead.
    pub open spec fn valid_at(self, now: Timestamp) -> bool {
        before(now, self.expires_at)
    }

    /// A placeholder: some computation for the key has not ended yet.
    pub open spec fn in_flight(self) -> bool {
        self.state is Computing
    }

    /// An entry can be served when it holds an outcome and is valid.
    pub open spec fn servable_at(self, now: Timestamp) -> bool {
        self.state.settled() && self.valid_at(now)
    }

    /// A fresh entry with nothing in it, made at `now`. Its deadline is
    /// `now`, the time of its making and not that time plus a TTL: the entry
    /// is stale from the start, until an outcome gives it a later deadline.
    pub fn default(now: Timestamp) -> (entry: Self)
        ensures
            entry == Entry::blank(now),
            forall|later: Timestamp| later >= now ==> !#[trigger] entry.valid_at(later),
    {
        Entry { value: 0, aux_code: 0, expires_at: now as u128, state: EntryState::Empty }
    }

    /// A fresh entry with the given payload and deadline, not yet in any
    /// lifecycle state but `Empty`.
    pub fn new(value: Value, expires_at: Deadline, aux_code: AuxCode) -> (entry: Self)
        ensures
            entry == (Entry { value, aux_code, expires_at, state: EntryState::Empty }),
    {
        Entry { value, aux_code, expires_at, state: EntryState::Empty }
    }

    /// Whether the deadline lies ahead of `now`.
    pub fn is_valid(&self, now: Timestamp) -> (valid: bool)
        ensures
            valid == self.valid_at(now),
    {
        is_before(now, self.expires_at)
    }

    /// Whether the entry holds an outcome that may be served at `now`.
    pub fn is_servable(&self, now: Timestamp) -> (servable: bool)
        ensures
            servable == self.servable_at(now),
    {
        self.state.is_settled() && self.is_valid(now)
    }

    /// Whether the entry is a placeholder.
    pub fn is_in_flight(&self) -> (waiting: bool)
        ensures
            waiting == self.in_flight(),
    {
        match self.state {
            EntryState::Computing => true,
            _ => false,
        }
    }

    /// `Empty -> Computing`: the entry becomes a placeholder.
    pub fn start(self) -> (entry: Self)
        requires
            self.state is Empty,
        ensures
            self.state.steps_to(entry.state),
            entry == (Entry { state: EntryState::Computing, ..self }),
    {
        Entry { state: EntryState::Computing, ..self }
    }

    /// `Computing -> Ready | Failed`: the entry takes the outcome of the
    /// computation and the deadline that the policy grants it.
    pub fn settle(
        self,
        value: Value,
        aux_code: AuxCode,
        success: bool,
        now: Timestamp,
        policy: &TtlPolicy,
    ) -> (entry: Self)
        requires
            self.state is Computing,
        ensures
            self.state.steps_to(entry.state),
            entry == Entry::outcome(value, aux_code, success, now, *policy),
    {
        let state: EntryState = if success {
            EntryState::Ready
        } else {
            EntryState::Failed
        };
        Entry { value, aux_code, expires_at: policy.expiry(now, success), state }
    }

    /// `Empty -> Ready` in one step, for a value that the caller supplies
    /// instead of computing it. This is the one way round the computation
    /// cycle.
    pub fn make_ready(self) -> (entry: Self)
        requires
            self.state is Empty,
        ensures
            entry == (Entry { state: EntryState::Ready, ..self }),
    {
        Entry { state: EntryState::Ready, ..self }
    }
}

} // verus!
