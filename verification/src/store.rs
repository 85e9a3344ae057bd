//! The store: the shard table and the expiry index kept in step, and the
//! operations built on the two.

use crate::clock::{clock_now, instant_nanos};
use crate::entry::{expiry_nanos, EntryView, KeyValuePair};
use crate::expiry::{listed, ExpiryIndex};
use crate::key::{key_ident, shard_of, HiddenKey, SHARDS};
use crate::shards::ShardTable;
use std::time::Instant;
use vstd::prelude::*;
use vstd::slice::slice_to_vec;

verus! {

/// The store as a mathematical value: the position of its creation instant
/// on the clock's line, and its records by identifier. A record stays in
/// `entries` from the write that made it until it is removed or evicted,
/// whether or not it has expired in between.
pub struct StoreState {
    pub created_at: int,
    pub entries: Map<u64, EntryView>,
}

impl StoreState {
    /// The record that the key's identifier names, if there is one.
    pub open spec fn lookup(self, key: Seq<u8>) -> Option<EntryView> {
        if self.entries.contains_key(key_ident(key)) {
            Some(self.entries[key_ident(key)])
        } else {
            None
        }
    }

    /// The stored raw key and value, expired or not.
    pub open spec fn get_key_value_unchecked(self, key: Seq<u8>) -> Option<(Seq<u8>, Seq<u8>)> {
        match self.lookup(key) {
            Some(entry) => Some((entry.key, entry.value)),
            None => None,
        }
    }

    /// The stored value, expired or not.
    pub open spec fn get_unchecked(self, key: Seq<u8>) -> Option<Seq<u8>> {
        match self.lookup(key) {
            Some(entry) => Some(entry.value),
            None => None,
        }
    }

    /// The stored raw key and value as a reader sees them at `now`: nothing
    /// where the record is missing or expired.
    pub open spec fn get_key_value_at(self, key: Seq<u8>, now: int) -> Option<
        (Seq<u8>, Seq<u8>),
    > {
        match self.lookup(key) {
            Some(entry) => if entry.expired_at(now) {
                None
            } else {
                Some((entry.key, entry.value))
            },
            None => None,
        }
    }

    /// The stored value as a reader sees it at `now`: nothing where the
    /// record is missing or expired.
    pub open spec fn get_at(self, key: Seq<u8>, now: int) -> Option<Seq<u8>> {
        match self.lookup(key) {
            Some(entry) => if entry.expired_at(now) {
                None
            } else {
                Some(entry.value)
            },
            None => None,
        }
    }

    /// The store after a write: the record under the key's identifier is
    /// replaced whole, and every other record stays.
    pub open spec fn set(self, key: Seq<u8>, value: Seq<u8>, expiry: Option<int>) -> StoreState {
        StoreState {
            created_at: self.created_at,
            entries: self.entries.insert(key_ident(key), EntryView { key, value, expiry }),
        }
    }

    /// The store after a removal: the record under the key's identifier is
    /// gone, and every other record stays.
    pub open spec fn remove(self, key: Seq<u8>) -> StoreState {
        StoreState { created_at: self.created_at, entries: self.entries.remove(key_ident(key)) }
    }

    /// Whether an eviction pass at `now` reclaims the record with this
    /// identifier: it expires before `now`, however long before.
    pub open spec fn due_at(self, ident: u64, now: int) -> bool {
        self.entries.contains_key(ident) && (self.entries[ident].expiry matches Some(t) && t
            < now)
    }

    /// The store after an eviction pass at `now`: the records that are due
    /// are gone, and every other record stays.
    pub open spec fn evict_at(self, now: int) -> StoreState {
        StoreState {
            created_at: self.created_at,
            entries: self.entries.remove_keys(Set::new(|ident: u64| self.due_at(ident, now))),
        }
    }

    /// The pairs that the expiry index holds for this store: each record
    /// that expires, under its expiration instant.
    pub open spec fn scheduled(self) -> Set<(int, u64)> {
        Set::new(
            |p: (int, u64)|
                self.entries.contains_key(p.1) && self.entries[p.1].expiry == Some(p.0),
        )
    }
}

/// Whether none of the first `upto` buckets of a scan stands under the
/// instant.
spec fn spared(due: Seq<(Instant, Vec<HiddenKey>)>, upto: int, instant: int) -> bool {
    forall|i: int| 0 <= i < upto ==> instant_nanos((#[trigger] due[i]).0) != instant
}

/// The bytes of an optional value.
pub open spec fn bytes_of(value: Option<Vec<u8>>) -> Option<Seq<u8>> {
    match value {
        Some(v) => Some(v@),
        None => None,
    }
}

/// The bytes of an optional pair of key and value.
pub open spec fn pair_of(pair: Option<(Vec<u8>, Vec<u8>)>) -> Option<(Seq<u8>, Seq<u8>)> {
    match pair {
        Some((k, v)) => Some((k@, v@)),
        None => None,
    }
}

/// An in-memory key/value store whose records may expire. Keys and values
/// are byte strings of any length.
#[derive(Debug)]
pub struct CornerStore {
    /// For each instant, the identifiers that expire then.
    expiry_times: ExpiryIndex,
    /// When the store was made. The expiry index files every instant by its
    /// distance from this one.
    created_at: Instant,
    /// The records, each in the shard that its identifier selects.
    data: ShardTable,
}

impl View for CornerStore {
    type V = StoreState;

    closed spec fn view(&self) -> StoreState {
        StoreState { created_at: instant_nanos(self.created_at), entries: self.data@ }
    }
}

impl CornerStore {
    /// The shard table and the expiry index are each in order, and the index
    /// lists exactly the records that carry an expiration instant, each
    /// under its own instant.
    pub closed spec fn wf(&self) -> bool {
        &&& self.data.wf()
        &&& self.expiry_times.wf()
        &&& self.expiry_times@ == self@.scheduled()
    }

    /// Whether the expiry index lists the identifier under the instant at
    /// position `instant` of the clock's line.
    pub closed spec fn registered(&self, instant: int, ident: u64) -> bool {
        self.expiry_times@.contains((instant, ident))
    }

    /// The records that shard `i` holds.
    pub closed spec fn shard(&self, i: int) -> Map<u64, EntryView> {
        self.data.shard(i)
    }

    /// The expiry index mirrors the shard table: it lists an identifier under
    /// an instant exactly when the record with that identifier expires at
    /// that instant.
    pub proof fn lemma_index_mirrors_entries(&self, instant: int, ident: u64)
        requires
            self.wf(),
        ensures
            self.registered(instant, ident) <==> self@.entries.contains_key(ident)
                && self@.entries[ident].expiry == Some(instant),
    {
        assert(self@.scheduled().contains((instant, ident)) <==> self.registered(instant, ident));
    }

    /// Shard `i` holds exactly the records whose identifier selects `i`.
    pub proof fn lemma_shard_contents(&self, i: int)
        requires
            self.wf(),
            0 <= i < SHARDS,
        ensures
            self.shard(i) == self@.entries.restrict(Set::new(|ident: u64| shard_of(ident) == i)),
    {
        self.data.lemma_shard_contents(i);
    }

    /// An empty store whose creation instant is `created_at`.
    pub fn new_at(created_at: Instant) -> (store: Self)
        ensures
            store.wf(),
            store@ == (StoreState {
                created_at: instant_nanos(created_at),
                entries: Map::<u64, EntryView>::empty(),
            }),
    {
        let store = CornerStore {
            expiry_times: ExpiryIndex::new(created_at),
            created_at,
            data: ShardTable::new(),
        };
        assert(store.expiry_times@ =~= store@.scheduled());
        store
    }

    /// An empty store, created now.
    pub fn new() -> (store: Self)
        ensures
            store.wf(),
            store@.entries == Map::<u64, EntryView>::empty(),
    {
        Self::new_at(clock_now())
    }

    /// The value stored under the key as a reader sees it at `now`: `None`
    /// where there is no record or the record has expired by then.
    pub fn get_at(&self, key: &[u8], now: Instant) -> (value: Option<Vec<u8>>)
        requires
            self.wf(),
        ensures
            bytes_of(value) == self@.get_at(key@, instant_nanos(now)),
    {
        let hidden_key = HiddenKey::new(key);
        match self.data.lookup(hidden_key) {
            Some(kv_pair) => {
                if kv_pair.expired_at(now) {
                    None
                } else {
                    Some(kv_pair.value.clone())
                }
            },
            None => None,
        }
    }

    /// The value stored under the key, unless it has expired by the time of
    /// the call. The clock is read once, and the result is what `get_at`
    /// gives for that reading.
    pub fn get(&self, key: &[u8]) -> (value: Option<Vec<u8>>)
        requires
            self.wf(),
        ensures
            exists|now: int| bytes_of(value) == #[trigger] self@.get_at(key@, now),
    {
        let now = clock_now();
        let value = self.get_at(key, now);
        assert(bytes_of(value) == self@.get_at(key@, instant_nanos(now)));
        value
    }

    /// The stored raw key and the value as a reader sees them at `now`:
    /// `None` where there is no record or the record has expired by then.
    pub fn get_key_value_at(&self, key: &[u8], now: Instant) -> (pair: Option<(Vec<u8>, Vec<u8>)>)
        requires
            self.wf(),
        ensures
            pair_of(pair) == self@.get_key_value_at(key@, instant_nanos(now)),
    {
        let hidden_key = HiddenKey::new(key);
        match self.data.lookup(hidden_key) {
            Some(kv_pair) => {
                if kv_pair.expired_at(now) {
                    None
                } else {
                    Some((kv_pair.key.clone(), kv_pair.value.clone()))
                }
            },
            None => None,
        }
    }

    /// The stored raw key and the value, unless the record has expired by the
    /// time of the call. The clock is read once, and the result is what
    /// `get_key_value_at` gives for that reading.
    pub fn get_key_value(&self, key: &[u8]) -> (pair: Option<(Vec<u8>, Vec<u8>)>)
        requires
            self.wf(),
        ensures
            exists|now: int| pair_of(pair) == #[trigger] self@.get_key_value_at(key@, now),
    {
        let now = clock_now();
        let pair = self.get_key_value_at(key, now);
        assert(pair_of(pair) == self@.get_key_value_at(key@, instant_nanos(now)));
        pair
    }

    /// The value stored under the key, even if it has expired.
    pub fn get_unchecked(&self, key: &[u8]) -> (value: Option<Vec<u8>>)
        requires
            self.wf(),
        ensures
            bytes_of(value) == self@.get_unchecked(key@),
    {
        let hidden_key = HiddenKey::new(key);
        match self.data.lookup(hidden_key) {
            Some(kv_pair) => Some(kv_pair.value.clone()),
            None => None,
        }
    }

    /// The stored raw key and the value, even if the record has expired.
    pub fn get_key_value_unchecked(&self, key: &[u8]) -> (pair: Option<(Vec<u8>, Vec<u8>)>)
        requires
            self.wf(),
        ensures
            pair_of(pair) == self@.get_key_value_unchecked(key@),
    {
        let hidden_key = HiddenKey::new(key);
        match self.data.lookup(hidden_key) {
            Some(kv_pair) => Some((kv_pair.key.clone(), kv_pair.value.clone())),
            None => None,
        }
    }

    /// Sets the key to the value, in place of any record that was there. With
    /// an `expiry`, the record is served until that instant and reclaimed by
    /// the first eviction pass after it.
    ///
    /// The expiry index is brought in step before the record is written: the
    /// instant of the record that is replaced is taken off it, and the new
    /// one is put on, whether it lies ahead or behind.
    pub fn set(&mut self, key: &[u8], val: &[u8], expiry: Option<Instant>)
        requires
            old(self).wf(),
        ensures
            final(self).wf(),
            final(self)@ == old(self)@.set(key@, val@, expiry_nanos(expiry)),
            forall|instant: int|
                final(self).registered(instant, key_ident(key@)) <==> expiry_nanos(expiry) == Some(
                    instant,
                ),
            forall|instant: int, ident: u64|
                ident != key_ident(key@) ==> final(self).registered(instant, ident) == old(
                    self,
                ).registered(instant, ident),
            forall|i: int|
                0 <= i < SHARDS && i != shard_of(key_ident(key@)) ==> final(self).shard(
                    i,
                ) == old(self).shard(i),
    {
        let hidden_key = HiddenKey::new(key);
        let kv_pair = KeyValuePair { key: slice_to_vec(key), value: slice_to_vec(val), expiry };

        let previous: Option<Instant> = match self.data.lookup(hidden_key) {
            Some(replaced) => replaced.expiry,
            None => None,
        };
        if let Some(time) = previous {
            self.expiry_times.unregister(time, hidden_key);
        }
        if let Some(time) = expiry {
            self.expiry_times.register(time, hidden_key);
        }
        self.data.upsert(hidden_key, kv_pair);
        assert(self.expiry_times@ =~= self@.scheduled());
    }

    /// The same as `set`.
    pub fn update(&mut self, key: &[u8], val: &[u8], expiry: Option<Instant>)
        requires
            old(self).wf(),
        ensures
            final(self).wf(),
            final(self)@ == old(self)@.set(key@, val@, expiry_nanos(expiry)),
            forall|instant: int|
                final(self).registered(instant, key_ident(key@)) <==> expiry_nanos(expiry) == Some(
                    instant,
                ),
            forall|instant: int, ident: u64|
                ident != key_ident(key@) ==> final(self).registered(instant, ident) == old(
                    self,
                ).registered(instant, ident),
            forall|i: int|
                0 <= i < SHARDS && i != shard_of(key_ident(key@)) ==> final(self).shard(
                    i,
                ) == old(self).shard(i),
    {
        self.set(key, val, expiry)
    }

    /// Removes the record stored under the key, from its shard and, where it
    /// carried an expiration instant, from that instant's bucket of the
    /// expiry index. Where there is no record, the store stays as it is.
    pub fn remove(&mut self, key: &[u8])
        requires
            old(self).wf(),
        ensures
            final(self).wf(),
            final(self)@ == old(self)@.remove(key@),
            forall|instant: int| !final(self).registered(instant, key_ident(key@)),
            forall|instant: int, ident: u64|
                ident != key_ident(key@) ==> final(self).registered(instant, ident) == old(
                    self,
                ).registered(instant, ident),
            forall|i: int|
                0 <= i < SHARDS && i != shard_of(key_ident(key@)) ==> final(self).shard(
                    i,
                ) == old(self).shard(i),
    {
        let hidden_key = HiddenKey::new(key);
        let expiry: Option<Instant> = match self.data.delete(hidden_key) {
            Some(kv_pair) => kv_pair.expiry,
            None => None,
        };
        if let Some(time) = expiry {
            self.expiry_times.unregister(time, hidden_key);
        }
        assert(self.expiry_times@ =~= self@.scheduled());
    }

    /// Reclaims every record that is due at `now`: those that expire before
    /// `now`, however long before. The due buckets are copied out of the
    /// expiry index first; then each listed record is deleted from its
    /// shard; then the buckets themselves are dropped.
    pub fn evict_at(&mut self, now: Instant)
        requires
            old(self).wf(),
        ensures
            final(self).wf(),
            final(self)@ == old(self)@.evict_at(instant_nanos(now)),
    {
        let due = self.expiry_times.due_before(now);
        let ghost start = self@;
        let ghost index = self.expiry_times@;

        let ghost mut gone: Set<u64> = Set::empty();
        let mut b: usize = 0;
        while b < due.len()
            invariant
                b <= due.len(),
                self.data.wf(),
                self.expiry_times == old(self).expiry_times,
                self.created_at == old(self).created_at,
                self.data@ == start.entries.remove_keys(gone),
                forall|ident: u64|
                    gone.contains(ident) <==> exists|i: int, j: int|
                        0 <= i < b && 0 <= j < due[i].1.len() && #[trigger] due[i].1[j]
                            == HiddenKey(ident),
            decreases due.len() - b,
        {
            let bucket = &due[b].1;
            let ghost gone_before = gone;
            let mut k: usize = 0;
            while k < bucket.len()
                invariant
                    k <= bucket.len(),
                    b < due.len(),
                    bucket == &due[b as int].1,
                    self.data.wf(),
                    self.expiry_times == old(self).expiry_times,
                    self.created_at == old(self).created_at,
                    self.data@ == start.entries.remove_keys(gone),
                    forall|ident: u64|
                        gone.contains(ident) <==> gone_before.contains(ident) || exists|j: int|
                            0 <= j < k && #[trigger] bucket[j] == HiddenKey(ident),
                decreases bucket.len() - k,
            {
                let item = bucket[k];
                self.data.delete(item);
                proof {
                    let ghost wider = gone.insert(item.0);
                    assert(self.data@ =~= start.entries.remove_keys(wider));
                    assert forall|ident: u64|
                        wider.contains(ident) <==> gone_before.contains(ident) || exists|j: int|
                            0 <= j < k + 1 && #[trigger] bucket[j] == HiddenKey(ident) by {
                        if ident == item.0 {
                            assert(bucket[k as int] == HiddenKey(ident));
                        }
                    }
                    gone = wider;
                }
                k = k + 1;
            }
            b = b + 1;
        }
        proof {
            assert forall|ident: u64| gone.contains(ident) <==> start.due_at(
                ident,
                instant_nanos(now),
            ) by {
                if gone.contains(ident) {
                    let (i, j) = choose|i: int, j: int|
                        0 <= i < due.len() && 0 <= j < due[i].1.len() && #[trigger] due[i].1[j]
                            == HiddenKey(ident);
                    assert(listed(due@, instant_nanos(due[i].0), ident));
                }
                if start.due_at(ident, instant_nanos(now)) {
                    let t: int = start.entries[ident].expiry->0;
                    assert(index.contains((t, ident)));
                    assert(listed(due@, t, ident));
                }
            }
            assert(gone =~= Set::new(|ident: u64| start.due_at(ident, instant_nanos(now))));
        }

        let mut b: usize = 0;
        while b < due.len()
            invariant
                b <= due.len(),
                self.data@ == start.evict_at(instant_nanos(now)).entries,
                self.data.wf(),
                self.created_at == old(self).created_at,
                self.expiry_times.wf(),
                forall|p: (int, u64)|
                    #![trigger self.expiry_times@.contains(p)]
                    #![trigger index.contains(p)]
                    self.expiry_times@.contains(p) <==> index.contains(p) && spared(
                        due@,
                        b as int,
                        p.0,
                    ),
            decreases due.len() - b,
        {
            let ghost kept = self.expiry_times@;
            self.expiry_times.discard(due[b].0);
            assert forall|p: (int, u64)|
                self.expiry_times@.contains(p) <==> index.contains(p) && spared(
                    due@,
                    b + 1,
                    p.0,
                ) by {
                assert(spared(due@, b + 1, p.0) <==> spared(due@, b as int, p.0) && instant_nanos(
                    due@[b as int].0,
                ) != p.0);
                assert(kept.contains(p) <==> index.contains(p) && spared(due@, b as int, p.0));
            }
            b = b + 1;
        }
        proof {
            assert forall|p: (int, u64)|
                self.expiry_times@.contains(p) <==> self@.scheduled().contains(p) by {
                if index.contains(p) && p.0 < instant_nanos(now) {
                    assert(listed(due@, p.0, p.1));
                    let (i, j) = choose|i: int, j: int|
                        0 <= i < due@.len() && 0 <= j < due@[i].1.len() && instant_nanos(
                            due@[i].0,
                        ) == p.0 && #[trigger] due@[i].1[j] == HiddenKey(p.1);
                    assert(instant_nanos(due[i].0) == p.0);
                }
            }
            assert(self.expiry_times@ =~= self@.scheduled());
        }
    }

    /// Reclaims every record that is due at the time of the call. The clock
    /// is read once, and the pass is the one that `evict_at` makes for that
    /// reading.
    pub fn evict(&mut self)
        requires
            old(self).wf(),
        ensures
            final(self).wf(),
            exists|now: int| final(self)@ == #[trigger] old(self)@.evict_at(now),
    {
        let now = clock_now();
        self.evict_at(now);
        assert(self@ == old(self)@.evict_at(instant_nanos(now)));
    }
}

} // verus!
