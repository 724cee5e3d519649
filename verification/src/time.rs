//! Timestamp arithmetic.
//!
//! The record timestamp is an opaque 64-bit counter; which clock feeds it is
//! a build-time choice made outside this library.  The wall-clock source
//! hands over a plain reading — seconds since the Unix epoch and the
//! microseconds within the current second — and the collapse to a single
//! microsecond count is verified here.

use vstd::prelude::*;

verus! {

/// A wall-clock reading: whole seconds since the Unix epoch, plus the
/// microseconds within the current second (always below one million).
#[derive(Clone, Copy, PartialEq, Eq, Structural, Debug)]
pub struct EpochTime {
    pub secs: u64,
    pub subsec_micros: u32,
}

/// Microseconds since the Unix epoch for a wall-clock reading.
pub fn system_time_to_micros(time: EpochTime) -> (r: u64)
    requires
        time.subsec_micros < 1_000_000,
        time.secs * 1_000_000 + time.subsec_micros <= u64::MAX,
    ensures
        r == time.secs * 1_000_000 + time.subsec_micros,
{
    time.secs * 1_000_000 + (time.subsec_micros as u64)
}

} // verus!
