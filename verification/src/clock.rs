//! The clock that a reporter reads when it is not handed an instant.
//!
//! An instant is a count of nanoseconds on a monotonic clock. A reporter
//! takes instants from its caller (`start_at`, `stop_at`, `finalize_at`) or
//! reads the clock of `minstant` itself (`start`, `stop`, `finalize`,
//! `finish`).

use vstd::prelude::*;

verus! {

/// The nanoseconds from the instant `since` to the instant `now`: zero where
/// `now` is not later than `since`.
pub open spec fn elapsed(since: u64, now: u64) -> nat {
    if now >= since {
        (now - since) as nat
    } else {
        0
    }
}

/// The nanoseconds from `since` to `now`.
pub fn elapsed_nanos(since: u64, now: u64) -> (nanos: u64)
    ensures
        nanos == elapsed(since, now),
{
    if now >= since {
        now - since
    } else {
        0
    }
}

/// `minstant::Instant::now`, as the nanoseconds that `duration_since` counts
/// from `minstant::Instant::ZERO`. Nothing is claimed of the reading, not
/// even that a later one is no smaller.
#[verifier::external_body]
pub(crate) fn now_nanos() -> u64 {
    let now = minstant::Instant::now();
    now.duration_since(minstant::Instant::ZERO).as_nanos() as u64
}

} // verus!
