//! Minimum spacing of requests to one source. When less than the interval
//! has passed since the previous request, the caller waits for the rest.

use vstd::prelude::*;

verus! {

/// How long to wait before the next request, in nanoseconds, given the
/// minimum interval and the time elapsed since the previous request (if
/// any): the rest of the interval, or nothing.
pub open spec fn wait_for(interval_nanos: u128, since_last: Option<u128>) -> u128 {
    match since_last {
        Some(elapsed) => if elapsed < interval_nanos {
            (interval_nanos - elapsed) as u128
        } else {
            0
        },
        None => 0,
    }
}

/// The wait before the next request: the remainder of the interval when the
/// previous request is more recent than the interval, else zero. A zero
/// interval never waits.
pub fn wait_before_next(interval_nanos: u128, since_last: Option<u128>) -> (r: u128)
    ensures
        r == wait_for(interval_nanos, since_last),
        r <= interval_nanos,
{
    match since_last {
        Some(elapsed) => if elapsed < interval_nanos {
            interval_nanos - elapsed
        } else {
            0
        },
        None => 0,
    }
}

} // verus!
