//! The expiry index: for each instant at which something expires, the
//! identifiers that expire then, ordered by instant.
//!
//! An instant is filed under its distance from the index's origin, the
//! instant at which the store was made. Instants before the origin are
//! filed in an era of their own, ahead of those from the origin on, so that
//! a walk over the index meets all of them in the order of time.

use crate::clock::{instant_le, instant_nanos, nanos_since};
use crate::key::HiddenKey;
use std::collections::BTreeMap;
use std::time::Instant;
use vstd::prelude::*;
use vstd::std_specs::btree::increasing_seq;
use vstd::std_specs::cmp::OrdSpec;
use vstd::std_specs::iter::IteratorSpec;

verus! {

/// The identifiers that expire at one instant. No identifier stands in it
/// twice.
#[derive(Debug)]
struct Bucket {
    instant: Instant,
    idents: Vec<HiddenKey>,
}

/// The identifiers that expire, bucketed by instant.
#[derive(Debug)]
pub struct ExpiryIndex {
    origin: Instant,
    /// The buckets, each under the place of its instant: era 0 and the
    /// distance to the origin counted down from the largest number, for an
    /// instant before the origin; era 1 and the distance from the origin,
    /// for any other.
    buckets: BTreeMap<(u8, u128), Bucket>,
}

/// Whether the position `t` is near enough to `origin` to have a place.
/// Every instant is: the time between two instants is a `u128` of
/// nanoseconds.
spec fn in_reach(origin: int, t: int) -> bool {
    origin - u128::MAX <= t <= origin + u128::MAX
}

/// The place of the position `t` in an index with this origin.
spec fn place_of(origin: int, t: int) -> (u8, u128) {
    if t < origin {
        (0u8, (u128::MAX - (origin - t)) as u128)
    } else {
        (1u8, (t - origin) as u128)
    }
}

/// Places are ordered by era first and by distance inside an era.
spec fn place_lt(a: (u8, u128), b: (u8, u128)) -> bool {
    a.0 < b.0 || (a.0 == b.0 && a.1 < b.1)
}

/// The order of places is the order of time.
proof fn lemma_place_order(origin: int, t1: int, t2: int)
    requires
        in_reach(origin, t1),
        in_reach(origin, t2),
    ensures
        place_lt(place_of(origin, t1), place_of(origin, t2)) <==> t1 < t2,
        place_of(origin, t1) == place_of(origin, t2) <==> t1 == t2,
{
}

impl View for ExpiryIndex {
    type V = Set<(int, u64)>;

    /// The pairs of instant and identifier that the index holds, an instant
    /// standing as its position on the clock's line.
    closed spec fn view(&self) -> Set<(int, u64)> {
        Set::new(
            |p: (int, u64)|
                in_reach(instant_nanos(self.origin), p.0) && self.buckets@.contains_key(
                    place_of(instant_nanos(self.origin), p.0),
                ) && self.buckets@[place_of(instant_nanos(self.origin), p.0)].idents@.contains(
                    HiddenKey(p.1),
                ),
        )
    }
}

/// Whether the identifier is listed under the instant at position `instant`
/// in what a scan of the index returned.
pub open spec fn listed(due: Seq<(Instant, Vec<HiddenKey>)>, instant: int, ident: u64) -> bool {
    exists|i: int, j: int|
        0 <= i < due.len() && 0 <= j < due[i].1.len() && instant_nanos(due[i].0) == instant
            && #[trigger] due[i].1[j] == HiddenKey(ident)
}

/// A sequence of places that `BTreeMap` reports as increasing ascends.
proof fn lemma_increasing(places: Seq<(u8, u128)>)
    requires
        increasing_seq(places),
    ensures
        forall|i: int, j: int| 0 <= i < j < places.len() ==> place_lt(places[i], places[j]),
{
    broadcast use vstd::laws_cmp::group_laws_cmp;

    assert(vstd::laws_cmp::obeys_cmp::<(u8, u128)>());
    assert forall|i: int, j: int| 0 <= i < j < places.len() implies place_lt(
        places[i],
        places[j],
    ) by {
        assert(places[i].cmp_spec(&places[j]) is Less);
    }
}

/// The places of the pairs that a walk over the index yields.
spec fn places_of(all: Seq<(&(u8, u128), &Bucket)>) -> Seq<(u8, u128)> {
    all.map_values(|kv: (&(u8, u128), &Bucket)| *kv.0)
}

/// Where the identifier stands in the bucket, if it does.
fn position_of(idents: &Vec<HiddenKey>, hk: HiddenKey) -> (found: Option<usize>)
    ensures
        match found {
            Some(i) => i < idents.len() && idents[i as int] == hk,
            None => !idents@.contains(hk),
        },
{
    let mut j: usize = 0;
    while j < idents.len()
        invariant
            j <= idents.len(),
            forall|i: int| 0 <= i < j ==> idents[i] != hk,
        decreases idents.len() - j,
    {
        if idents[j].0 == hk.0 {
            return Some(j);
        }
        j = j + 1;
    }
    None
}

/// A copy of the identifiers.
fn copy_of(idents: &Vec<HiddenKey>) -> (copy: Vec<HiddenKey>)
    ensures
        copy@ == idents@,
{
    let mut copy: Vec<HiddenKey> = Vec::new();
    let mut j: usize = 0;
    while j < idents.len()
        invariant
            j <= idents.len(),
            copy@ == idents@.take(j as int),
        decreases idents.len() - j,
    {
        copy.push(idents[j]);
        assert(copy@ =~= idents@.take(j + 1));
        j = j + 1;
    }
    assert(copy@ =~= idents@);
    copy
}

impl ExpiryIndex {
    /// Every bucket stands at the place of its own instant, holds at least
    /// one identifier, and holds none twice.
    pub closed spec fn wf(&self) -> bool {
        forall|place: (u8, u128)| #[trigger]
            self.buckets@.contains_key(place) ==> {
                let bucket = self.buckets@[place];
                &&& in_reach(instant_nanos(self.origin), instant_nanos(bucket.instant))
                &&& place_of(instant_nanos(self.origin), instant_nanos(bucket.instant)) == place
                &&& bucket.idents@.len() > 0
                &&& bucket.idents@.no_duplicates()
            }
    }

    /// The place of an instant. Every instant has one.
    fn file_under(&self, instant: Instant) -> (place: (u8, u128))
        ensures
            in_reach(instant_nanos(self.origin), instant_nanos(instant)),
            place == place_of(instant_nanos(self.origin), instant_nanos(instant)),
    {
        if instant_le(self.origin, instant) {
            (1u8, nanos_since(instant, self.origin))
        } else {
            (0u8, u128::MAX - nanos_since(self.origin, instant))
        }
    }

    /// An index that holds nothing, for a store made at `origin`.
    pub fn new(origin: Instant) -> (index: Self)
        ensures
            index.wf(),
            index@ == Set::<(int, u64)>::empty(),
    {
        let index = ExpiryIndex { origin, buckets: BTreeMap::new() };
        assert(index@ =~= Set::<(int, u64)>::empty());
        index
    }

    /// Lists the identifier under the instant, in a new bucket where the
    /// instant has none yet. An identifier that the bucket lists already is
    /// not listed again.
    pub fn register(&mut self, instant: Instant, hk: HiddenKey)
        requires
            old(self).wf(),
        ensures
            final(self).wf(),
            final(self)@ == old(self)@.insert((instant_nanos(instant), hk.0)),
    {
        let place = self.file_under(instant);
        let ghost origin = instant_nanos(self.origin);
        let bucket = match self.buckets.remove(&place) {
            Some(bucket) => {
                let mut idents = bucket.idents;
                let ghost before = idents@;
                if position_of(&idents, hk).is_none() {
                    idents.push(hk);
                    assert(idents@[idents@.len() - 1] == hk);
                    assert forall|x: HiddenKey|
                        idents@.contains(x) <==> before.contains(x) || x == hk by {
                        if before.contains(x) {
                            let k: int = choose|k: int| 0 <= k < before.len() && before[k] == x;
                            assert(idents@[k] == x);
                        }
                    }
                }
                Bucket { instant: bucket.instant, idents }
            },
            None => {
                let mut idents: Vec<HiddenKey> = Vec::new();
                idents.push(hk);
                assert(idents@[0] == hk);
                Bucket { instant, idents }
            },
        };
        self.buckets.insert(place, bucket);
        assert forall|p: (int, u64)|
            self@.contains(p) <==> old(self)@.insert((instant_nanos(instant), hk.0)).contains(
                p,
            ) by {
            if in_reach(origin, p.0) {
                lemma_place_order(origin, p.0, instant_nanos(instant));
            }
        }
        assert(self@ =~= old(self)@.insert((instant_nanos(instant), hk.0)));
    }

    /// Takes the identifier off the instant's bucket, and drops the bucket
    /// when that leaves it empty. Where the identifier is not listed under
    /// the instant, the index stays as it is.
    pub fn unregister(&mut self, instant: Instant, hk: HiddenKey)
        requires
            old(self).wf(),
        ensures
            final(self).wf(),
            final(self)@ == old(self)@.remove((instant_nanos(instant), hk.0)),
    {
        let place = self.file_under(instant);
        let ghost origin = instant_nanos(self.origin);
        match self.buckets.remove(&place) {
            Some(bucket) => {
                let mut idents = bucket.idents;
                let ghost before = idents@;
                match position_of(&idents, hk) {
                    Some(i) => {
                        idents.remove(i);
                        assert forall|x: HiddenKey|
                            idents@.contains(x) <==> before.contains(x) && x != hk by {
                            if idents@.contains(x) {
                                let k: int = choose|k: int| 0 <= k < idents@.len() && idents@[k] == x;
                                if k < i {
                                    assert(before[k] == x);
                                } else {
                                    assert(before[k + 1] == x);
                                }
                            }
                            if before.contains(x) && x != hk {
                                let k: int = choose|k: int| 0 <= k < before.len() && before[k] == x;
                                if k < i {
                                    assert(idents@[k] == x);
                                } else {
                                    assert(idents@[k - 1] == x);
                                }
                            }
                        }
                        assert(idents@.no_duplicates()) by {
                            assert forall|a: int, b: int|
                                0 <= a < idents@.len() && 0 <= b < idents@.len() && a
                                    != b implies idents@[a] != idents@[b] by {
                                let a0: int = if a < i { a } else { a + 1 };
                                let b0: int = if b < i { b } else { b + 1 };
                                assert(idents@[a] == before[a0]);
                                assert(idents@[b] == before[b0]);
                            }
                        }
                    },
                    None => {},
                }
                if idents.len() > 0 {
                    self.buckets.insert(place, Bucket { instant: bucket.instant, idents });
                } else {
                    assert forall|x: HiddenKey| !idents@.contains(x) by {
                        if idents@.contains(x) {
                            let k: int = choose|k: int| 0 <= k < idents@.len() && idents@[k] == x;
                        }
                    }
                }
            },
            None => {},
        }
        assert forall|p: (int, u64)|
            self@.contains(p) <==> old(self)@.remove((instant_nanos(instant), hk.0)).contains(
                p,
            ) by {
            if in_reach(origin, p.0) {
                lemma_place_order(origin, p.0, instant_nanos(instant));
            }
        }
        assert(self@ =~= old(self)@.remove((instant_nanos(instant), hk.0)));
    }

    /// Drops the instant's bucket with all that it lists.
    pub fn discard(&mut self, instant: Instant)
        requires
            old(self).wf(),
        ensures
            final(self).wf(),
            final(self)@ == old(self)@.filter(|p: (int, u64)| p.0 != instant_nanos(instant)),
    {
        let place = self.file_under(instant);
        let ghost origin = instant_nanos(self.origin);
        self.buckets.remove(&place);
        assert forall|p: (int, u64)|
            self@.contains(p) <==> old(self)@.filter(
                |p: (int, u64)| p.0 != instant_nanos(instant),
            ).contains(p) by {
            if in_reach(origin, p.0) {
                lemma_place_order(origin, p.0, instant_nanos(instant));
            }
        }
        assert(self@ =~= old(self)@.filter(|p: (int, u64)| p.0 != instant_nanos(instant)));
    }

    /// A copy of every bucket whose instant is before `now`, in ascending
    /// order of instant, however far back the instant lies. The index itself
    /// is left untouched, so the caller may act on the copy and prune the
    /// index afterwards.
    pub fn due_before(&self, now: Instant) -> (due: Vec<(Instant, Vec<HiddenKey>)>)
        requires
            self.wf(),
        ensures
            forall|i: int, j: int|
                0 <= i < j < due.len() ==> instant_nanos(due[i].0) < instant_nanos(due[j].0),
            forall|i: int|
                0 <= i < due.len() ==> instant_nanos((#[trigger] due[i]).0) < instant_nanos(now),
            forall|i: int| 0 <= i < due.len() ==> (#[trigger] due[i]).1@.no_duplicates(),
            forall|instant: int, ident: u64|
                listed(due@, instant, ident) <==> self@.contains((instant, ident)) && instant
                    < instant_nanos(now),
    {
        let limit = self.file_under(now);
        let ghost origin = instant_nanos(self.origin);
        let mut due: Vec<(Instant, Vec<HiddenKey>)> = Vec::new();
        let ghost mut stopped: bool = false;
        let ghost mut cut: int = 0;
        let ghost all = self.buckets.iter().remaining();
        for kv in walk: self.buckets.iter()
            invariant_except_break
                !stopped,
                due@.len() == walk.index(),
            invariant
                walk.seq() == all,
                increasing_seq(places_of(all)),
                0 <= walk.index() <= all.len(),
                due@.len() <= all.len(),
                forall|i: int|
                    0 <= i < due@.len() ==> (#[trigger] due@[i]).0 == all[i].1.instant
                        && due@[i].1@ == all[i].1.idents@ && place_lt(*all[i].0, limit),
            ensures
                stopped ==> due@.len() == cut && cut < all.len() && !place_lt(*all[cut].0, limit),
                !stopped ==> due@.len() == all.len(),
        {
            let place: (u8, u128) = *kv.0;
            if place.0 > limit.0 || (place.0 == limit.0 && place.1 >= limit.1) {
                proof {
                    stopped = true;
                    cut = walk.index();
                }
                break ;
            }
            let bucket: &Bucket = kv.1;
            due.push((bucket.instant, copy_of(&bucket.idents)));
        }
        proof {
            let places = places_of(all);
            lemma_increasing(places);
            assert(places.len() == all.len());
            assert forall|i: int| 0 <= i < all.len() implies self.buckets@.contains_key(
                *(#[trigger] all[i]).0,
            ) && self.buckets@[*all[i].0] == *all[i].1 by {}
            assert forall|i: int| 0 <= i < due.len() implies instant_nanos((#[trigger] due[i]).0)
                < instant_nanos(now) && due[i].1@.no_duplicates() by {
                assert(self.buckets@.contains_key(*all[i].0));
                lemma_place_order(origin, instant_nanos(due[i].0), instant_nanos(now));
            }
            assert forall|i: int, j: int| 0 <= i < j < due.len() implies instant_nanos(due[i].0)
                < instant_nanos(due[j].0) by {
                assert(places[i] == *all[i].0);
                assert(places[j] == *all[j].0);
                assert(self.buckets@.contains_key(*all[i].0));
                assert(self.buckets@.contains_key(*all[j].0));
                lemma_place_order(origin, instant_nanos(due[i].0), instant_nanos(due[j].0));
            }
            assert forall|instant: int, ident: u64|
                listed(due@, instant, ident) <==> self@.contains((instant, ident)) && instant
                    < instant_nanos(now) by {
                if listed(due@, instant, ident) {
                    let (i, j) = choose|i: int, j: int|
                        0 <= i < due@.len() && 0 <= j < due@[i].1.len() && instant_nanos(
                            due@[i].0,
                        ) == instant && #[trigger] due@[i].1[j] == HiddenKey(ident);
                    assert(self.buckets@.contains_key(*all[i].0));
                    assert(all[i].1.idents@[j] == HiddenKey(ident));
                }
                if self@.contains((instant, ident)) && instant < instant_nanos(now) {
                    let place = place_of(origin, instant);
                    let bucket = self.buckets@[place];
                    assert(all.contains((&place, &bucket)));
                    let i: int = choose|i: int| 0 <= i < all.len() && all[i] == (&place, &bucket);
                    assert(places[i] == place);
                    lemma_place_order(origin, instant, instant_nanos(now));
                    if i >= due@.len() {
                        assert(places[cut] == *all[cut].0);
                        assert(place_lt(place, limit));
                        if cut < i {
                            assert(place_lt(places[cut], places[i]));
                        }
                        assert(false);
                    }
                    lemma_place_order(origin, instant_nanos(bucket.instant), instant);
                    let j: int = choose|j: int|
                        0 <= j < bucket.idents@.len() && bucket.idents@[j] == HiddenKey(ident);
                    assert(due@[i].1[j] == HiddenKey(ident));
                }
            }
        }
        due
    }
}

} // verus!
