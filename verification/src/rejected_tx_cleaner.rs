//! The age beyond which rejected transactions are removed from the database.
//!
//! The age is configured as a length of time in seconds and nanoseconds; the
//! database layer takes it as a `chrono` time delta, whose range is smaller.

use vstd::prelude::*;

verus! {

/// `chrono`'s signed length of time. Its content is not read here: a value is
/// made by `chrono` and handed on as it is.
#[verifier::external_type_specification]
#[verifier::external_body]
pub struct ExTimeDelta(chrono::TimeDelta);

/// Largest number of whole seconds in a time delta: `i64::MAX` milliseconds, in seconds.
pub const MAX_DELTA_SECS: u64 = 9_223_372_036_854_775;

/// Largest number of nanoseconds beside `MAX_DELTA_SECS` seconds: what is
/// left of `i64::MAX` milliseconds, in nanoseconds.
pub const MAX_DELTA_NANOS: u32 = 807_000_000;

/// Nanoseconds in a second.
pub const NANOS_PER_SEC: u32 = 1_000_000_000;

/// Whether `secs` seconds and `nanos` nanoseconds are at most `i64::MAX`
/// milliseconds, the longest time that a time delta holds.
pub open spec fn fits_time_delta(secs: u64, nanos: u32) -> bool {
    secs < MAX_DELTA_SECS || (secs == MAX_DELTA_SECS && nanos <= MAX_DELTA_NANOS)
}

/// Calls `chrono::TimeDelta::from_std` on the length of time of `secs` seconds
/// and `nanos` nanoseconds, with `nanos` below one second. Trusted: the call
/// gives a time delta exactly where the length fits, as `fits_time_delta`
/// says; that the delta is as long as the length handed in is not stated.
#[verifier::external_body]
fn delta_from_std(secs: u64, nanos: u32) -> (delta: Option<chrono::TimeDelta>)
    requires
        nanos < NANOS_PER_SEC,
    ensures
        delta.is_some() == fits_time_delta(secs, nanos),
{
    chrono::TimeDelta::from_std(std::time::Duration::new(secs, nanos)).ok()
}

/// The greatest age of a rejected transaction, as the database layer takes
/// it, from the configured `secs` seconds and `nanos` nanoseconds. There is
/// none where `nanos` is a second or more, or the age is beyond the range of
/// a time delta.
pub fn rejected_transactions_max_age(secs: u64, nanos: u32) -> (age: Option<chrono::TimeDelta>)
    ensures
        age.is_some() == (nanos < NANOS_PER_SEC && fits_time_delta(secs, nanos)),
{
    if nanos >= NANOS_PER_SEC {
        None
    } else {
        delta_from_std(secs, nanos)
    }
}

} // verus!
