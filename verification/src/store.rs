//! The eviction store: at most `capacity` key/entry pairs, ordered by how
//! recently each was used.
//!
//! The pairs live in an [`lru::LruCache`]. What that collection holds is seen
//! here as a sequence of pairs, most recently used first, and each of its
//! methods is described by what it does to that sequence. The functions of
//! [`EvictionStore`] are proved against those descriptions.

use vstd::prelude::*;
use lru::LruCache;
use std::num::NonZeroUsize;
use crate::entry::{Entry, Key};

verus! {

/// The largest capacity a store can be made with. The hash table inside
/// `lru::LruCache` is sized from the capacity when the cache is made, and may
/// double once later; below this limit the size of that table always fits the
/// address space.
pub const MAX_CAPACITY: usize = usize::MAX / 256;

// ---------------------------------------------------------------------------
// The sequence of pairs, and what the operations do to it
// ---------------------------------------------------------------------------

/// Whether some pair has the key.
pub open spec fn holds(items: Seq<(Key, Entry)>, key: Key) -> bool {
    exists|i: int| 0 <= i < items.len() && (#[trigger] items[i]).0 == key
}

/// The position of a pair with the key (of the pair, where keys are distinct).
pub open spec fn rank(items: Seq<(Key, Entry)>, key: Key) -> int {
    choose|i: int| 0 <= i < items.len() && (#[trigger] items[i]).0 == key
}

/// The entry stored under the key.
pub open spec fn entry_of(items: Seq<(Key, Entry)>, key: Key) -> Option<Entry> {
    if holds(items, key) {
        Some(items[rank(items, key)].1)
    } else {
        None
    }
}

/// The pairs with the key's pair taken out.
pub open spec fn without(items: Seq<(Key, Entry)>, key: Key) -> Seq<(Key, Entry)> {
    if holds(items, key) {
        items.remove(rank(items, key))
    } else {
        items
    }
}

/// The pairs with the key's pair moved to the front.
pub open spec fn promoted(items: Seq<(Key, Entry)>, key: Key) -> Seq<(Key, Entry)> {
    if holds(items, key) {
        seq![items[rank(items, key)]] + items.remove(rank(items, key))
    } else {
        items
    }
}

/// The pairs after `entry` is stored under `key`: the new pair stands at the
/// front; an earlier pair of the key is gone; where the key is new and the
/// store is full, the pair at the back, the least recently used, is gone.
pub open spec fn stored(
    items: Seq<(Key, Entry)>,
    capacity: nat,
    key: Key,
    entry: Entry,
) -> Seq<(Key, Entry)> {
    if holds(items, key) {
        seq![(key, entry)] + items.remove(rank(items, key))
    } else if items.len() == capacity {
        seq![(key, entry)] + items.drop_last()
    } else {
        seq![(key, entry)] + items
    }
}

/// The pairs after a key is looked up and, where it is missing, `entry` is
/// stored under it.
pub open spec fn ensured(
    items: Seq<(Key, Entry)>,
    capacity: nat,
    key: Key,
    entry: Entry,
) -> Seq<(Key, Entry)> {
    if holds(items, key) {
        promoted(items, key)
    } else {
        stored(items, capacity, key, entry)
    }
}

/// No key occurs twice.
pub open spec fn distinct_keys(items: Seq<(Key, Entry)>) -> bool {
    forall|i: int, j: int|
        0 <= i < j < items.len() ==> (#[trigger] items[i]).0 != (#[trigger] items[j]).0
}

/// The invariant of a store: distinct keys, no more pairs than the capacity,
/// and a capacity within the limits.
pub open spec fn well_formed(items: Seq<(Key, Entry)>, capacity: nat) -> bool {
    &&& distinct_keys(items)
    &&& items.len() <= capacity
    &&& 0 < capacity <= MAX_CAPACITY
}

// ---------------------------------------------------------------------------
// Facts about the sequence
// ---------------------------------------------------------------------------

/// Where keys are distinct, a key's pair is the only one with that key.
pub proof fn lemma_rank(items: Seq<(Key, Entry)>, key: Key, i: int)
    requires
        distinct_keys(items),
        0 <= i < items.len(),
        items[i].0 == key,
    ensures
        holds(items, key),
        rank(items, key) == i,
        entry_of(items, key) == Some(items[i].1),
{
    let r = rank(items, key);
    assert(0 <= r < items.len() && items[r].0 == key);
    if r < i {
        assert(items[r].0 != items[i].0);
    } else if i < r {
        assert(items[i].0 != items[r].0);
    }
}

/// A key that the store holds has a position, and its pair stands there.
pub proof fn lemma_rank_in_range(items: Seq<(Key, Entry)>, key: Key)
    requires
        holds(items, key),
    ensures
        0 <= rank(items, key) < items.len(),
        items[rank(items, key)].0 == key,
{
}

/// Taking a pair out keeps the store well formed and touches no other key.
pub proof fn lemma_without(items: Seq<(Key, Entry)>, capacity: nat, key: Key)
    requires
        well_formed(items, capacity),
    ensures
        well_formed(without(items, key), capacity),
        !holds(without(items, key), key),
        holds(items, key) ==> without(items, key).len() == items.len() - 1,
        forall|other: Key|
            other != key ==> #[trigger] entry_of(without(items, key), other) == entry_of(
                items,
                other,
            ),
{
    let rest = without(items, key);
    if holds(items, key) {
        let r = rank(items, key);
        lemma_remove_keeps_others(items, r);
        assert(!holds(rest, key)) by {
            if holds(rest, key) {
                let j = rank(rest, key);
                let jj = if j < r { j } else { j + 1 };
                assert(items[jj].0 == key);
                lemma_rank(items, key, jj);
            }
        }
    }
}

/// Removing the pair at one position keeps the keys distinct and leaves the
/// entry of every other key as it was.
pub proof fn lemma_remove_keeps_others(items: Seq<(Key, Entry)>, r: int)
    requires
        distinct_keys(items),
        0 <= r < items.len(),
    ensures
        distinct_keys(items.remove(r)),
        items.remove(r).len() == items.len() - 1,
        forall|other: Key|
            other != items[r].0 ==> #[trigger] entry_of(items.remove(r), other) == entry_of(
                items,
                other,
            ),
        !holds(items.remove(r), items[r].0),
{
    let rest = items.remove(r);
    assert forall|i: int, j: int| 0 <= i < j < rest.len() implies (#[trigger] rest[i]).0 != (
    #[trigger] rest[j]).0 by {
        let ii = if i < r { i } else { i + 1 };
        let jj = if j < r { j } else { j + 1 };
        assert(rest[i] == items[ii]);
        assert(rest[j] == items[jj]);
        assert(items[ii].0 != items[jj].0);
    }
    assert forall|other: Key| other != items[r].0 implies #[trigger] entry_of(rest, other)
        == entry_of(items, other) by {
        if holds(items, other) {
            let p = rank(items, other);
            let q = if p < r { p } else { p - 1 };
            assert(rest[q] == items[p]);
            lemma_rank(rest, other, q);
        } else if holds(rest, other) {
            let q = rank(rest, other);
            let p = if q < r { q } else { q + 1 };
            assert(rest[q] == items[p]);
            assert(items[p].0 == other);
        }
    }
    if holds(rest, items[r].0) {
        let q = rank(rest, items[r].0);
        let p = if q < r { q } else { q + 1 };
        assert(rest[q] == items[p]);
        if p < r {
            assert(items[p].0 != items[r].0);
        } else {
            assert(items[r].0 != items[p].0);
        }
    }
}

/// Putting a pair with a new key in front keeps the keys distinct, makes the
/// new entry the key's entry and leaves the entry of every other key as it
/// was.
pub proof fn lemma_front(items: Seq<(Key, Entry)>, key: Key, entry: Entry)
    requires
        distinct_keys(items),
        !holds(items, key),
    ensures
        distinct_keys(seq![(key, entry)] + items),
        (seq![(key, entry)] + items).len() == items.len() + 1,
        entry_of(seq![(key, entry)] + items, key) == Some(entry),
        rank(seq![(key, entry)] + items, key) == 0,
        forall|other: Key|
            other != key ==> #[trigger] entry_of(seq![(key, entry)] + items, other) == entry_of(
                items,
                other,
            ),
{
    let all = seq![(key, entry)] + items;
    assert forall|i: int, j: int| 0 <= i < j < all.len() implies (#[trigger] all[i]).0 != (
    #[trigger] all[j]).0 by {
        assert(all[j] == items[j - 1]);
        if i == 0 {
            assert(all[0].0 == key);
        } else {
            assert(all[i] == items[i - 1]);
            assert(items[i - 1].0 != items[j - 1].0);
        }
    }
    assert(all[0] == (key, entry));
    lemma_rank(all, key, 0);
    assert forall|other: Key| other != key implies #[trigger] entry_of(all, other) == entry_of(
        items,
        other,
    ) by {
        if holds(items, other) {
            let p = rank(items, other);
            assert(all[p + 1] == items[p]);
            lemma_rank(all, other, p + 1);
        } else if holds(all, other) {
            let q = rank(all, other);
            assert(q != 0);
            assert(all[q] == items[q - 1]);
            assert(items[q - 1].0 == other);
        }
    }
}

/// Dropping the pair at the back keeps the store well formed, removes that
/// pair's key and leaves the entry of every other key as it was.
pub proof fn lemma_drop_last(items: Seq<(Key, Entry)>)
    requires
        distinct_keys(items),
        items.len() > 0,
    ensures
        distinct_keys(items.drop_last()),
        items.drop_last().len() == items.len() - 1,
        !holds(items.drop_last(), items.last().0),
        forall|other: Key|
            other != items.last().0 ==> #[trigger] entry_of(items.drop_last(), other)
                == entry_of(items, other),
{
    let last = items.len() - 1;
    assert(items.drop_last() =~= items.remove(last));
    lemma_remove_keeps_others(items, last);
}

/// Moving a pair to the front keeps the store well formed and the entry of
/// every key as it was.
pub proof fn lemma_promoted(items: Seq<(Key, Entry)>, capacity: nat, key: Key)
    requires
        well_formed(items, capacity),
    ensures
        well_formed(promoted(items, key), capacity),
        promoted(items, key).len() == items.len(),
        forall|other: Key| #[trigger]
            entry_of(promoted(items, key), other) == entry_of(items, other),
        holds(items, key) ==> rank(promoted(items, key), key) == 0,
{
    if holds(items, key) {
        let r = rank(items, key);
        let rest = items.remove(r);
        lemma_remove_keeps_others(items, r);
        lemma_front(rest, key, items[r].1);
        assert(seq![items[r]] + rest =~= seq![(key, items[r].1)] + rest);
        lemma_rank(items, key, r);
    }
}

/// Moving a pair to the front keeps the other pairs in their order: a key
/// that stood before the pair stands one place further back, a key that stood
/// behind it stands where it stood.
pub proof fn lemma_promoted_order(
    items: Seq<(Key, Entry)>,
    capacity: nat,
    key: Key,
    other: Key,
)
    requires
        well_formed(items, capacity),
        holds(items, key),
        holds(items, other),
        other != key,
    ensures
        holds(promoted(items, key), other),
        rank(promoted(items, key), other) == (if rank(items, other) < rank(items, key) {
            rank(items, other) + 1
        } else {
            rank(items, other)
        }),
{
    let r = rank(items, key);
    let p = rank(items, other);
    let rest = items.remove(r);
    let after = promoted(items, key);
    let q = if p < r { p } else { p - 1 };
    lemma_promoted(items, capacity, key);
    assert(rest[q] == items[p]);
    assert(after[q + 1] == rest[q]);
    lemma_rank(after, other, q + 1);
}

/// Storing an entry keeps the store well formed, makes that entry the key's
/// entry, and leaves the entry of every other key as it was, but for the one
/// key that has to make room.
pub proof fn lemma_stored(items: Seq<(Key, Entry)>, capacity: nat, key: Key, entry: Entry)
    requires
        well_formed(items, capacity),
    ensures
        well_formed(stored(items, capacity, key, entry), capacity),
        entry_of(stored(items, capacity, key, entry), key) == Some(entry),
        rank(stored(items, capacity, key, entry), key) == 0,
        stored(items, capacity, key, entry).len() == (if holds(items, key) || items.len()
            == capacity {
            items.len()
        } else {
            items.len() + 1
        }),
        forall|other: Key|
            other != key && !evicts(items, capacity, key, other) ==> #[trigger] entry_of(
                stored(items, capacity, key, entry),
                other,
            ) == entry_of(items, other),
        forall|other: Key|
            evicts(items, capacity, key, other) ==> !#[trigger] holds(
                stored(items, capacity, key, entry),
                other,
            ),
{
    if holds(items, key) {
        let r = rank(items, key);
        lemma_remove_keeps_others(items, r);
        lemma_front(items.remove(r), key, entry);
    } else if items.len() == capacity {
        lemma_drop_last(items);
        let rest = items.drop_last();
        assert(!holds(rest, key)) by {
            if holds(rest, key) {
                let q = rank(rest, key);
                assert(rest[q] == items[q]);
            }
        }
        lemma_front(rest, key, entry);
        let after = stored(items, capacity, key, entry);
        assert forall|other: Key| evicts(items, capacity, key, other) implies !#[trigger] holds(
            after,
            other,
        ) by {
            assert(entry_of(after, other) == entry_of(rest, other));
        }
    } else {
        lemma_front(items, key, entry);
    }
}

/// Whether storing under `key` pushes `victim` out: the key is new, the store
/// is full, and `victim` is the key at the back.
pub open spec fn evicts(items: Seq<(Key, Entry)>, capacity: nat, key: Key, victim: Key) -> bool {
    &&& !holds(items, key)
    &&& items.len() == capacity
    &&& items.len() > 0
    &&& items.last().0 == victim
}

/// Looking a key up and storing an entry where it is missing keeps the store
/// well formed.
pub proof fn lemma_ensured(items: Seq<(Key, Entry)>, capacity: nat, key: Key, entry: Entry)
    requires
        well_formed(items, capacity),
    ensures
        well_formed(ensured(items, capacity, key, entry), capacity),
        entry_of(ensured(items, capacity, key, entry), key) == (if holds(items, key) {
            entry_of(items, key)
        } else {
            Some(entry)
        }),
{
    if holds(items, key) {
        lemma_promoted(items, capacity, key);
    } else {
        lemma_stored(items, capacity, key, entry);
    }
}

// ---------------------------------------------------------------------------
// The outside collection
// ---------------------------------------------------------------------------

// Everything from here to the store is taken on trust: the two types are
// opaque, the two functions without a body name what a cache holds, and the
// contract of each function with a hidden body says what the method of
// `lru::LruCache` it calls does, as the source of `lru` 0.12 shows it.

/// `lru::LruCache`. Nothing inside a value of it is visible here.
#[verifier::external_type_specification]
#[verifier::external_body]
#[verifier::reject_recursive_types(K)]
#[verifier::reject_recursive_types(V)]
#[verifier::reject_recursive_types(S)]
pub struct ExLruCache<K, V, S>(LruCache<K, V, S>);

/// `lru::DefaultHasher`, the hasher of a cache made by `LruCache::new`. It
/// is only carried along.
#[verifier::external_type_specification]
#[verifier::external_body]
pub struct ExDefaultHasher(lru::DefaultHasher);

/// The pairs that an `lru::LruCache` holds, in the order in which
/// `LruCache::iter` visits them: most recently used first.
pub uninterp spec fn lru_items(cache: LruCache<i64, Entry>) -> Seq<(i64, Entry)>;

/// The capacity that an `lru::LruCache` was made with, as `LruCache::cap`
/// reports it.
pub uninterp spec fn lru_cap(cache: LruCache<i64, Entry>) -> nat;

/// `LruCache::new`: the cache it returns holds nothing and has the given
/// capacity. The call panics on a capacity of zero (here: in the conversion
/// to `NonZeroUsize`) and where the hash table for that capacity cannot be
/// laid out, so both are left out.
#[verifier::external_body]
fn lru_new(capacity: usize) -> (cache: LruCache<Key, Entry>)
    requires
        0 < capacity <= MAX_CAPACITY,
    ensures
        lru_items(cache) == Seq::<(Key, Entry)>::empty(),
        lru_cap(cache) == capacity,
{
    LruCache::new(NonZeroUsize::new(capacity).unwrap())
}

/// `LruCache::len`: the result is the number of pairs held.
#[verifier::external_body]
fn lru_len(cache: &LruCache<Key, Entry>) -> (n: usize)
    ensures
        n == lru_items(*cache).len(),
{
    cache.len()
}

/// `LruCache::peek`: the result is the key's value, if the key is held. The
/// cache is not changed.
#[verifier::external_body]
fn lru_peek(cache: &LruCache<Key, Entry>, key: Key) -> (found: Option<Entry>)
    ensures
        found == entry_of(lru_items(*cache), key),
{
    cache.peek(&key).copied()
}

/// `LruCache::get`: the result is the key's value, if the key is held, and
/// the key's pair has moved to the front; the other pairs keep their order.
#[verifier::external_body]
fn lru_get(cache: &mut LruCache<Key, Entry>, key: Key) -> (found: Option<Entry>)
    requires
        well_formed(lru_items(*old(cache)), lru_cap(*old(cache))),
    ensures
        found == entry_of(lru_items(*old(cache)), key),
        lru_items(*final(cache)) == promoted(lru_items(*old(cache)), key),
        lru_cap(*final(cache)) == lru_cap(*old(cache)),
{
    cache.get(&key).copied()
}

/// `LruCache::put`: where the key is held its value is replaced and its pair
/// moves to the front; where it is not, the pair at the back is dropped if
/// the cache is full, and the new pair is put in front. The result is the
/// value that was replaced.
#[verifier::external_body]
fn lru_put(cache: &mut LruCache<Key, Entry>, key: Key, entry: Entry) -> (replaced: Option<Entry>)
    requires
        well_formed(lru_items(*old(cache)), lru_cap(*old(cache))),
    ensures
        replaced == entry_of(lru_items(*old(cache)), key),
        lru_items(*final(cache)) == stored(
            lru_items(*old(cache)),
            lru_cap(*old(cache)),
            key,
            entry,
        ),
        lru_cap(*final(cache)) == lru_cap(*old(cache)),
{
    cache.put(key, entry)
}

/// `LruCache::pop`: the key's pair is taken out of the cache and its value is
/// the result; nothing happens where the key is not held.
#[verifier::external_body]
fn lru_pop(cache: &mut LruCache<Key, Entry>, key: Key) -> (removed: Option<Entry>)
    requires
        well_formed(lru_items(*old(cache)), lru_cap(*old(cache))),
    ensures
        removed == entry_of(lru_items(*old(cache)), key),
        lru_items(*final(cache)) == without(lru_items(*old(cache)), key),
        lru_cap(*final(cache)) == lru_cap(*old(cache)),
{
    cache.pop(&key)
}

/// `LruCache::get_or_insert_mut`: where the key is held its pair moves to the
/// front; where it is not, `entry` is stored as by `put`. The result is the
/// value that the key has afterwards.
#[verifier::external_body]
fn lru_get_or_insert(cache: &mut LruCache<Key, Entry>, key: Key, entry: Entry) -> (current: Entry)
    requires
        well_formed(lru_items(*old(cache)), lru_cap(*old(cache))),
    ensures
        Some(current) == entry_of(lru_items(*final(cache)), key),
        lru_items(*final(cache)) == ensured(
            lru_items(*old(cache)),
            lru_cap(*old(cache)),
            key,
            entry,
        ),
        lru_cap(*final(cache)) == lru_cap(*old(cache)),
{
    *cache.get_or_insert_mut(key, || entry)
}

// ---------------------------------------------------------------------------
// The store
// ---------------------------------------------------------------------------

/// A capacity-bounded store of key/entry pairs in order of use.
pub struct EvictionStore {
    inner: LruCache<Key, Entry>,
}

impl EvictionStore {
    /// The pairs held, most recently used first.
    pub closed spec fn items(&self) -> Seq<(Key, Entry)> {
        lru_items(self.inner)
    }

    /// The number of pairs the store can hold.
    pub closed spec fn capacity(&self) -> nat {
        lru_cap(self.inner)
    }

    /// The invariant that every function of the store keeps.
    pub open spec fn wf(&self) -> bool {
        well_formed(self.items(), self.capacity())
    }

    /// An empty store.
    pub fn new(capacity: usize) -> (store: Self)
        requires
            0 < capacity <= MAX_CAPACITY,
        ensures
            store.wf(),
            store.items() == Seq::<(Key, Entry)>::empty(),
            store.capacity() == capacity,
    {
        EvictionStore { inner: lru_new(capacity) }
    }

    /// The number of pairs held.
    pub fn len(&self) -> (n: usize)
        ensures
            n == self.items().len(),
    {
        lru_len(&self.inner)
    }

    /// Reads the key's entry and leaves the order alone.
    pub fn peek(&self, key: Key) -> (found: Option<Entry>)
        ensures
            found == entry_of(self.items(), key),
    {
        lru_peek(&self.inner, key)
    }

    /// Reads the key's entry and makes the key the most recently used.
    pub fn get_promoting(&mut self, key: Key) -> (found: Option<Entry>)
        requires
            old(self).wf(),
        ensures
            final(self).wf(),
            found == entry_of(old(self).items(), key),
            final(self).items() == promoted(old(self).items(), key),
            final(self).capacity() == old(self).capacity(),
    {
        proof {
            lemma_promoted(self.items(), self.capacity(), key);
        }
        lru_get(&mut self.inner, key)
    }

    /// Stores an entry under the key and makes the key the most recently
    /// used. A full store drops its least recently used pair to make room for
    /// a new key. Returns the entry that was replaced.
    pub fn put(&mut self, key: Key, entry: Entry) -> (replaced: Option<Entry>)
        requires
            old(self).wf(),
        ensures
            final(self).wf(),
            replaced == entry_of(old(self).items(), key),
            final(self).items() == stored(old(self).items(), old(self).capacity(), key, entry),
            final(self).capacity() == old(self).capacity(),
    {
        proof {
            lemma_stored(self.items(), self.capacity(), key, entry);
        }
        lru_put(&mut self.inner, key, entry)
    }

    /// Takes the key's pair out of the store.
    pub fn remove(&mut self, key: Key) -> (removed: Option<Entry>)
        requires
            old(self).wf(),
        ensures
            final(self).wf(),
            removed == entry_of(old(self).items(), key),
            final(self).items() == without(old(self).items(), key),
            final(self).capacity() == old(self).capacity(),
    {
        proof {
            lemma_without(self.items(), self.capacity(), key);
        }
        lru_pop(&mut self.inner, key)
    }

    /// Makes sure the key has an entry: an entry that is there is promoted
    /// and returned, otherwise `entry` is stored as by [`EvictionStore::put`]
    /// and returned.
    pub fn get_or_insert_with(&mut self, key: Key, entry: Entry) -> (current: Entry)
        requires
            old(self).wf(),
        ensures
            final(self).wf(),
            current == (if holds(old(self).items(), key) {
                entry_of(old(self).items(), key).unwrap()
            } else {
                entry
            }),
            final(self).items() == ensured(old(self).items(), old(self).capacity(), key, entry),
            final(self).capacity() == old(self).capacity(),
    {
        proof {
            lemma_ensured(self.items(), self.capacity(), key, entry);
        }
        lru_get_or_insert(&mut self.inner, key, entry)
    }
}

} // verus!
