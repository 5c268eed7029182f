//! Readings of the machine's clocks.

use std::time::{Duration, Instant};

use time::OffsetDateTime;
use vstd::prelude::*;

verus! {

/// A calendar time, carried from the message that holds it to whoever reads the message.
#[verifier::external_type_specification]
#[verifier::external_body]
pub struct ExOffsetDateTime(OffsetDateTime);

/// A reading of the monotonic clock.
#[verifier::external_type_specification]
#[verifier::external_body]
pub struct ExInstant(Instant);

/// Calls `time::OffsetDateTime::now_utc`, which reads the system clock.
///
/// Nothing is claimed of the reading. The call does not return on a machine whose clock stands
/// outside the years that `OffsetDateTime` can hold.
#[verifier::external_body]
pub(crate) fn now_utc() -> (tm: OffsetDateTime) {
    OffsetDateTime::now_utc()
}

/// The time is one that a call of [`now_utc`] gave.
pub closed spec fn is_reading(tm: OffsetDateTime) -> bool {
    call_ensures(now_utc, (), tm)
}

/// Reads the system clock.
pub(crate) fn reading() -> (tm: OffsetDateTime)
    ensures
        is_reading(tm),
{
    called(now_utc)
}

/// Calls `clock`, and hands on what it gives.
fn called<F: Fn() -> OffsetDateTime>(clock: F) -> (tm: OffsetDateTime)
    requires
        call_requires(clock, ()),
    ensures
        call_ensures(clock, (), tm),
{
    clock()
}

/// A time counts as a reading of the system clock only if a call of [`now_utc`] gave it.
pub(crate) proof fn law_readings_come_from_the_clock(tm: OffsetDateTime)
    ensures
        is_reading(tm) <==> call_ensures(now_utc, (), tm),
{
}

/// Whether `first <= second` holds of two readings of the monotonic clock.
pub uninterp spec fn in_order(first: Instant, second: Instant) -> bool;

/// Calls `std::time::Instant::now`, which reads the monotonic clock, and calls it once more: the
/// second reading is not less than the first one.
///
/// Nothing else is claimed of the readings.
#[verifier::external_body]
pub(crate) fn readings() -> (r: (Instant, Instant))
    ensures
        in_order(r.0, r.1),
{
    (Instant::now(), Instant::now())
}

/// The time from one reading of the monotonic clock to a later one.
pub uninterp spec fn time_between(now: Instant, before: Instant) -> Duration;

/// Calls `std::time::Instant::duration_since`, which gives the time from `before` to `now`, or zero
/// if `before` is the later one.
#[verifier::external_body]
pub(crate) fn duration_since(now: Instant, before: Instant) -> (time: Duration)
    ensures
        time == time_between(now, before),
{
    now.duration_since(before)
}

} // verus!
