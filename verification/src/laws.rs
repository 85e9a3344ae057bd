//! What holds of the store's operations taken together, stated over the
//! store as a mathematical value. Each operation of `CornerStore` is tied
//! to that value by its own contract.

use crate::entry::EntryView;
use crate::key::{key_ident, shard_of};
use crate::store::StoreState;
use vstd::prelude::*;

verus! {

/// The records of a store whose identifier selects shard `i`.
pub open spec fn shard_entries(s: StoreState, i: int) -> Map<u64, EntryView> {
    s.entries.restrict(Set::new(|ident: u64| shard_of(ident) == i))
}

/// Round trip: a value written without an expiration instant is read back
/// as it was written, at any time.
pub proof fn law_round_trip(s: StoreState, key: Seq<u8>, value: Seq<u8>, now: int)
    ensures
        s.set(key, value, None).get_at(key, now) == Some(value),
        s.set(key, value, None).get_unchecked(key) == Some(value),
        s.set(key, value, None).get_key_value_at(key, now) == Some((key, value)),
{
}

/// Overwrite: the second of two writes to one key replaces the first whole,
/// value and expiration instant alike. A reader never sees the first value
/// again: it sees the second value while that has not expired, and nothing
/// once it has.
pub proof fn law_overwrite(
    s: StoreState,
    key: Seq<u8>,
    first: Seq<u8>,
    first_expiry: Option<int>,
    second: Seq<u8>,
    second_expiry: Option<int>,
    now: int,
)
    ensures
        s.set(key, first, first_expiry).set(key, second, second_expiry) == s.set(
            key,
            second,
            second_expiry,
        ),
        s.set(key, first, first_expiry).set(key, second, second_expiry).get_unchecked(key) == Some(
            second,
        ),
        s.set(key, first, first_expiry).set(key, second, second_expiry).get_at(key, now) == (if (
        second_expiry matches Some(t) && t <= now) {
            None
        } else {
            Some(second)
        }),
{
    assert(s.entries.insert(
        key_ident(key),
        EntryView { key, value: first, expiry: first_expiry },
    ).insert(key_ident(key), EntryView { key, value: second, expiry: second_expiry })
        =~= s.entries.insert(
        key_ident(key),
        EntryView { key, value: second, expiry: second_expiry },
    ));
}

/// Expiry hides without erasing: once the expiration instant has come, a
/// checked read gives nothing, while an unchecked read still gives the
/// value, until an eviction pass after that instant takes the record away.
pub proof fn law_expiry_hides(s: StoreState, key: Seq<u8>, value: Seq<u8>, expiry: int, now: int)
    requires
        expiry <= now,
    ensures
        s.set(key, value, Some(expiry)).get_at(key, now) == None::<Seq<u8>>,
        s.set(key, value, Some(expiry)).get_key_value_at(key, now) == None::<(Seq<u8>, Seq<u8>)>,
        s.set(key, value, Some(expiry)).get_unchecked(key) == Some(value),
        s.set(key, value, Some(expiry)).get_key_value_unchecked(key) == Some((key, value)),
        forall|pass: int|
            expiry < pass ==> (#[trigger] s.set(key, value, Some(expiry)).evict_at(
                pass,
            )).get_unchecked(key) == None::<Seq<u8>>,
{
}

/// A future expiry is live: before the expiration instant a checked read
/// gives the value.
pub proof fn law_future_expiry_is_live(
    s: StoreState,
    key: Seq<u8>,
    value: Seq<u8>,
    expiry: int,
    now: int,
)
    requires
        now < expiry,
    ensures
        s.set(key, value, Some(expiry)).get_at(key, now) == Some(value),
        s.set(key, value, Some(expiry)).get_key_value_at(key, now) == Some((key, value)),
{
}

/// Eviction reclaims exactly what is due: a record is gone after the pass
/// when it expires before the time of the pass, however long before, and
/// every other record is as it was.
pub proof fn law_eviction_is_exact(s: StoreState, key: Seq<u8>, now: int)
    ensures
        s.evict_at(now).lookup(key) == (if s.due_at(key_ident(key), now) {
            None
        } else {
            s.lookup(key)
        }),
{
}

/// Eviction is effective and scoped: of two records under different
/// identifiers, one that expired before the pass and one that expires after
/// it, the first is gone for checked and unchecked reads alike, and the
/// second is still served.
pub proof fn law_eviction_effective_and_scoped(
    s: StoreState,
    k1: Seq<u8>,
    v1: Seq<u8>,
    past: int,
    k2: Seq<u8>,
    v2: Seq<u8>,
    future: int,
    now: int,
)
    requires
        key_ident(k1) != key_ident(k2),
        past < now,
        now < future,
    ensures
        ({
            let after = s.set(k1, v1, Some(past)).set(k2, v2, Some(future)).evict_at(now);
            &&& after.get_at(k1, now) == None::<Seq<u8>>
            &&& after.get_unchecked(k1) == None::<Seq<u8>>
            &&& after.get_at(k2, now) == Some(v2)
        }),
{
}

/// Removal clears both structures: after a record with an expiration
/// instant is written and removed, the store is the one in which it was
/// only removed, so a later eviction pass finds nothing of it and reclaims
/// what it would have reclaimed anyway.
pub proof fn law_removal_clears(s: StoreState, key: Seq<u8>, value: Seq<u8>, expiry: int, now: int)
    ensures
        s.set(key, value, Some(expiry)).remove(key) == s.remove(key),
        s.set(key, value, Some(expiry)).remove(key).scheduled() == s.remove(key).scheduled(),
        forall|instant: int| !s.remove(key).scheduled().contains((instant, key_ident(key))),
        s.set(key, value, Some(expiry)).remove(key).evict_at(now) == s.remove(key).evict_at(now),
{
    assert(s.entries.insert(
        key_ident(key),
        EntryView { key, value, expiry: Some(expiry) },
    ).remove(key_ident(key)) =~= s.entries.remove(key_ident(key)));
}

/// Operations on one key stay in that key's shard: a write or a removal
/// leaves the records of every other shard as they were.
pub proof fn law_other_shards_untouched(
    s: StoreState,
    key: Seq<u8>,
    value: Seq<u8>,
    expiry: Option<int>,
    i: int,
)
    requires
        i != shard_of(key_ident(key)),
    ensures
        shard_entries(s.set(key, value, expiry), i) == shard_entries(s, i),
        shard_entries(s.remove(key), i) == shard_entries(s, i),
{
    assert(shard_entries(s.set(key, value, expiry), i) =~= shard_entries(s, i));
    assert(shard_entries(s.remove(key), i) =~= shard_entries(s, i));
}

/// No interference between identifiers: a write or a removal under one
/// identifier leaves what is read under any other identifier as it was.
pub proof fn law_no_interference(
    s: StoreState,
    key: Seq<u8>,
    value: Seq<u8>,
    expiry: Option<int>,
    other: Seq<u8>,
    now: int,
)
    requires
        key_ident(other) != key_ident(key),
    ensures
        s.set(key, value, expiry).lookup(other) == s.lookup(other),
        s.set(key, value, expiry).get_at(other, now) == s.get_at(other, now),
        s.set(key, value, expiry).get_unchecked(other) == s.get_unchecked(other),
        s.remove(key).lookup(other) == s.lookup(other),
        s.remove(key).get_at(other, now) == s.get_at(other, now),
        s.remove(key).get_unchecked(other) == s.get_unchecked(other),
{
}

/// Removal is idempotent: removing a key twice leaves the store as removing
/// it once does, and removing a key that is not there leaves it as it is.
pub proof fn law_removal_idempotent(s: StoreState, key: Seq<u8>)
    ensures
        s.remove(key).remove(key) == s.remove(key),
        s.lookup(key) is None ==> s.remove(key) == s,
        s.remove(key).lookup(key) is None,
{
    assert(s.entries.remove(key_ident(key)).remove(key_ident(key)) =~= s.entries.remove(
        key_ident(key),
    ));
    if s.lookup(key) is None {
        assert(s.entries.remove(key_ident(key)) =~= s.entries);
    }
}

} // verus!
