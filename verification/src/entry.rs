//! The record kept for one key.

use crate::clock::{instant_le, instant_nanos};
use std::time::Instant;
use vstd::prelude::*;

verus! {

/// What an entry holds, as mathematical values: the raw key and value bytes,
/// and the position of the expiration instant on the clock's line, if any.
pub struct EntryView {
    pub key: Seq<u8>,
    pub value: Seq<u8>,
    pub expiry: Option<int>,
}

impl EntryView {
    /// An entry is expired at `now` when it carries an expiration instant that
    /// is at or before `now`. An entry without one never expires.
    pub open spec fn expired_at(self, now: int) -> bool {
        self.expiry matches Some(t) && t <= now
    }
}

/// The position of an optional instant, if there is one.
pub open spec fn expiry_nanos(expiry: Option<Instant>) -> Option<int> {
    match expiry {
        Some(t) => Some(instant_nanos(t)),
        None => None,
    }
}

/// One stored record: the raw key as it was given, the value, and the instant
/// after which the record is no longer served.
#[derive(Debug)]
pub struct KeyValuePair {
    pub key: Vec<u8>,
    pub value: Vec<u8>,
    pub expiry: Option<Instant>,
}

impl View for KeyValuePair {
    type V = EntryView;

    open spec fn view(&self) -> EntryView {
        EntryView { key: self.key@, value: self.value@, expiry: expiry_nanos(self.expiry) }
    }
}

impl Clone for KeyValuePair {
    /// A copy with the same key, value and expiration instant.
    fn clone(&self) -> (copy: Self)
        ensures
            copy@ == self@,
    {
        KeyValuePair { key: self.key.clone(), value: self.value.clone(), expiry: self.expiry }
    }
}

impl KeyValuePair {
    /// Whether the record is expired at the instant `now`.
    pub fn expired_at(&self, now: Instant) -> (expired: bool)
        ensures
            expired == self@.expired_at(instant_nanos(now)),
    {
        match self.expiry {
            Some(t) => instant_le(t, now),
            None => false,
        }
    }
}

} // verus!
