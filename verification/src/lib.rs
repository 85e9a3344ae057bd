//! A sharded in-memory key/value store whose entries may expire.
//!
//! Keys and values are byte strings of any length. A key is reduced once to a
//! fixed-width identifier; the identifier selects one of a fixed number of
//! shards and names the entry inside it. Entries that carry an expiration
//! instant are also listed in an index ordered by time, so that an eviction
//! pass visits the entries that are due and nothing else.
//!
//! Two distinct keys with the same identifier are one entry to the store: the
//! later write replaces the earlier one. Every contract below is stated over
//! identifiers for that reason.
//!
//! A store is owned by one writer at a time: the operations that change it
//! take `&mut self`, and any number of readers may share it in between.

pub mod clock;
pub mod entry;
pub mod expiry;
pub mod key;
pub mod laws;
pub mod shards;
pub mod store;

pub use crate::store::CornerStore;
