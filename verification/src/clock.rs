//! The clock that goes on while the computer sleeps.
use vstd::prelude::*;

verus! {

/// Milliseconds of a time in seconds and nanoseconds.
pub fn monotonic_ms(seconds: i64, nanoseconds: i64) -> (ms: u64)
    requires
        0 <= seconds <= 18_446_744_073_709_550,
        0 <= nanoseconds < 1_000_000_000,
    ensures
        ms == seconds * 1000 + nanoseconds / 1_000_000,
{
    seconds as u64 * 1000 + nanoseconds as u64 / 1_000_000
}

} // verus!
