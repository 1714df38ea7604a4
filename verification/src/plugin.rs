//! What the stream of snapshots adds to what the daemon sent.
use crate::alerts;
use vstd::prelude::*;

verus! {

/// The age beyond which a reading is passed on as stale.
pub const STALE_MS: u64 = 3500;

/// How many seconds lie between two reports of energy and incidents.
pub const HISTORY_SECONDS: u64 = 15;

/// The age of a reading and whether it is stale, brought up to the moment at which it is passed on.
///
/// Without a reading both stay as the daemon sent them; what was stale stays so.
pub fn refreshed(
    captured_ms: Option<u64>,
    now_ms: u64,
    age_ms: Option<u64>,
    stale: bool,
) -> (r: (Option<u64>, bool))
    ensures
        match captured_ms {
            Some(at) => {
                &&& r.0 matches Some(age) && age == alerts::elapsed(now_ms, at)
                &&& r.1 == (stale || alerts::elapsed(now_ms, at) > STALE_MS)
            },
            None => r == (age_ms, stale),
        },
{
    match captured_ms {
        Some(at) => {
            let age: u64 = now_ms.saturating_sub(at);
            (Some(age), stale || age > STALE_MS)
        },
        None => (age_ms, stale),
    }
}

/// A reading is stale after three and a half seconds, and energy is reported every fifteen.
pub proof fn reports_have_their_times()
    ensures
        STALE_MS == 3500,
        HISTORY_SECONDS == 15,
{
}

} // verus!
