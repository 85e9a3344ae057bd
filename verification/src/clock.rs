//! Points in time. The store measures time on the monotonic clock of the
//! standard library and reasons about an instant through its position on
//! that clock's line.
//!
//! Nothing in this file is proved: it states what the standard library
//! documents of `Instant` and `Duration`.

use std::time::Instant;
use vstd::prelude::*;

verus! {

/// `std::time::Instant`, a reading of the monotonic clock. Nothing inside it
/// is visible to the proofs.
#[verifier::external_type_specification]
#[verifier::external_body]
pub struct ExInstant(Instant);

/// The position of `t` on the monotonic clock's line: the whole number of
/// nanoseconds between the clock's origin and `t`. Instants are ordered by
/// their positions, and the time elapsed between two of them is the
/// difference of their positions.
pub uninterp spec fn instant_nanos(t: Instant) -> int;

/// Reads the monotonic clock with `Instant::now`. Nothing is claimed of the
/// reading.
#[verifier::external_body]
pub(crate) fn clock_now() -> (now: Instant) {
    Instant::now()
}

/// Compares two instants with `<=`, the order of `Instant`: `true` exactly
/// when `a` is not after `b`.
#[verifier::external_body]
pub(crate) fn instant_le(a: Instant, b: Instant) -> (le: bool)
    ensures
        le == (instant_nanos(a) <= instant_nanos(b)),
{
    a <= b
}

/// The nanoseconds elapsed from `earlier` to `later`, by
/// `Instant::saturating_duration_since` and `Duration::as_nanos`: the
/// distance between the two positions, or zero when `earlier` is in fact the
/// later one.
#[verifier::external_body]
pub(crate) fn nanos_since(later: Instant, earlier: Instant) -> (elapsed: u128)
    ensures
        elapsed == if instant_nanos(earlier) <= instant_nanos(later) {
            instant_nanos(later) - instant_nanos(earlier)
        } else {
            0
        },
{
    later.saturating_duration_since(earlier).as_nanos()
}

} // verus!
