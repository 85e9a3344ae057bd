//! The shard table: a fixed number of maps from identifier to record. An
//! identifier lives in the shard that it selects and in no other.

use crate::entry::{EntryView, KeyValuePair};
use crate::key::{shard_of, HiddenKey, SHARDS};
use std::collections::HashMap;
use vstd::prelude::*;

verus! {

/// The records of the store, spread over `SHARDS` maps.
#[derive(Debug)]
pub struct ShardTable {
    shards: Vec<HashMap<u64, KeyValuePair>>,
}

impl View for ShardTable {
    type V = Map<u64, EntryView>;

    /// All records of the table, by identifier.
    closed spec fn view(&self) -> Map<u64, EntryView> {
        Map::new(
            |ident: u64| self.shards[shard_of(ident)]@.contains_key(ident),
            |ident: u64| self.shards[shard_of(ident)]@[ident]@,
        )
    }
}

impl ShardTable {
    /// The table has its fixed number of shards, and every shard holds only
    /// identifiers that select it.
    pub closed spec fn wf(&self) -> bool {
        &&& self.shards.len() == SHARDS
        &&& forall|i: int, ident: u64|
            0 <= i < SHARDS && #[trigger] self.shards[i]@.contains_key(ident) ==> shard_of(ident)
                == i
    }

    /// The records that shard `i` holds.
    pub closed spec fn shard(&self, i: int) -> Map<u64, EntryView> {
        self.shards[i]@.map_values(|e: KeyValuePair| e@)
    }

    /// Shard `i` holds exactly the records of the table whose identifier
    /// selects `i`.
    pub proof fn lemma_shard_contents(&self, i: int)
        requires
            self.wf(),
            0 <= i < SHARDS,
        ensures
            self.shard(i) == self@.restrict(Set::new(|ident: u64| shard_of(ident) == i)),
    {
        assert(self.shard(i) =~= self@.restrict(Set::new(|ident: u64| shard_of(ident) == i)));
    }

    /// An empty table.
    pub fn new() -> (table: Self)
        ensures
            table.wf(),
            table@ == Map::<u64, EntryView>::empty(),
    {
        let mut shards: Vec<HashMap<u64, KeyValuePair>> = Vec::with_capacity(SHARDS);
        let mut i: usize = 0;
        while i < SHARDS
            invariant
                i <= SHARDS,
                shards.len() == i,
                forall|j: int| 0 <= j < i ==> (#[trigger] shards[j])@ == Map::<
                    u64,
                    KeyValuePair,
                >::empty(),
            decreases SHARDS - i,
        {
            shards.push(HashMap::new());
            i = i + 1;
        }
        let table = ShardTable { shards };
        assert(table@ =~= Map::<u64, EntryView>::empty());
        table
    }

    /// The record stored under the identifier, if there is one.
    pub fn lookup(&self, hk: HiddenKey) -> (found: Option<&KeyValuePair>)
        requires
            self.wf(),
        ensures
            match found {
                Some(entry) => self@.contains_key(hk.0) && entry@ == self@[hk.0],
                None => !self@.contains_key(hk.0),
            },
    {
        self.shards[hk.shard()].get(&hk.0)
    }

    /// Stores the record under the identifier, in place of any record that
    /// was there.
    pub fn upsert(&mut self, hk: HiddenKey, entry: KeyValuePair)
        requires
            old(self).wf(),
        ensures
            final(self).wf(),
            final(self)@ == old(self)@.insert(hk.0, entry@),
            forall|i: int|
                0 <= i < SHARDS && i != shard_of(hk.0) ==> final(self).shard(i) == old(self).shard(
                    i,
                ),
    {
        let i: usize = hk.shard();
        self.shards[i].insert(hk.0, entry);
        assert(self@ =~= old(self)@.insert(hk.0, entry@));
    }

    /// Removes the record stored under the identifier and hands it back.
    /// Where there is none, the table stays as it is.
    pub fn delete(&mut self, hk: HiddenKey) -> (removed: Option<KeyValuePair>)
        requires
            old(self).wf(),
        ensures
            final(self).wf(),
            final(self)@ == old(self)@.remove(hk.0),
            match removed {
                Some(entry) => old(self)@.contains_key(hk.0) && entry@ == old(self)@[hk.0],
                None => !old(self)@.contains_key(hk.0),
            },
            forall|i: int|
                0 <= i < SHARDS && i != shard_of(hk.0) ==> final(self).shard(i) == old(self).shard(
                    i,
                ),
    {
        let i: usize = hk.shard();
        let removed = self.shards[i].remove(&hk.0);
        assert(self@ =~= old(self)@.remove(hk.0));
        removed
    }
}

} // verus!
