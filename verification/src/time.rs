//! Instants as the app exchanges them: milliseconds since the Unix epoch.
//!
//! The library holds an instant (a property-list date, a system time) as
//! nanoseconds since the Unix epoch.

use vstd::prelude::*;

verus! {

/// Nanoseconds in a millisecond.
pub const NANOS_PER_MILLI: i128 = 1_000_000;

/// The milliseconds since the epoch of an instant `nanos` nanoseconds
/// after it, whole milliseconds only, kept to 64 bits.
pub open spec fn millis_of(nanos: int) -> u64 {
    (nanos / 1_000_000) as u64
}

/// Milliseconds since the epoch of a property-list date.
pub fn date_to_ms(nanos: i128) -> (r: u64)
    requires
        nanos >= 0,
    ensures
        r == millis_of(nanos as int),
{
    (nanos / NANOS_PER_MILLI) as u64
}

/// Milliseconds since the epoch of a system time.
pub fn systemtime_to_millis(nanos: i128) -> (r: u64)
    requires
        nanos >= 0,
    ensures
        r == millis_of(nanos as int),
{
    date_to_ms(nanos)
}

/// The property-list date `ms` milliseconds after the epoch.
pub fn ms_to_date(ms: u64) -> (r: i128)
    ensures
        r == ms * 1_000_000,
{
    assert(ms * 1_000_000 <= u64::MAX * 1_000_000) by (nonlinear_arith);
    (ms as i128) * NANOS_PER_MILLI
}

/// A date built from milliseconds gives back those milliseconds.
pub proof fn lemma_ms_date_roundtrip(ms: u64)
    ensures
        millis_of(ms * 1_000_000) == ms,
{
    assert((ms * 1_000_000) / 1_000_000 == ms) by (nonlinear_arith);
    assert(ms * 1_000_000 <= u64::MAX * 1_000_000) by (nonlinear_arith);
}

} // verus!
