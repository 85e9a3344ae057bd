//! The identifier scheme: every raw key is reduced once to a fixed-width
//! identifier, which names the entry inside its shard and selects the shard.

use std::collections::hash_map::DefaultHasher;
use std::hash::Hasher;
use vstd::prelude::*;
use vstd::std_specs::hash::DefaultHasherAdditionalSpecFns;

verus! {

/// Number of shards in the table.
pub const SHARDS: usize = 128;

/// The identifier of the raw key `key`: the digest that a fresh
/// `DefaultHasher` gives after the key's bytes were written to it in one piece.
pub open spec fn key_ident(key: Seq<u8>) -> u64 {
    DefaultHasher::spec_finish(seq![key])
}

/// The shard that holds the entry with identifier `ident`: bits 13 to 19 of
/// the identifier, read as a number.
pub open spec fn shard_of(ident: u64) -> int {
    (ident as int / 0x2000) % 128
}

/// The identifier of a raw key, computed once and kept.
#[derive(Debug, Clone, Copy, PartialEq, Eq, Hash)]
pub struct HiddenKey(pub u64);

impl HiddenKey {
    /// Hashes the raw key.
    pub fn new(key: &[u8]) -> (hk: Self)
        ensures
            hk.0 == key_ident(key@),
    {
        let mut hasher = DefaultHasher::new();
        hasher.write(key);
        let ident: u64 = hasher.finish();
        HiddenKey(ident)
    }

    /// The index of the shard that this identifier belongs to. It is read
    /// from the middle of the identifier: the lowest and the highest bits are
    /// the ones that the hash map inside a shard draws on, and are left to
    /// it.
    pub fn shard(&self) -> (i: usize)
        ensures
            i == shard_of(self.0),
            i < SHARDS,
    {
        let ident: u64 = self.0;
        let i: u64 = (ident & 0xff000) >> 13;
        assert((ident & 0xff000) >> 13 == (ident / 0x2000) % 128) by (bit_vector);
        i as usize
    }
}

} // verus!
