//! Expiry of cached search reports. The stores themselves (in memory, on
//! disk) are driven by the caller; an entry stored with a time-to-live
//! carries its expiry time and is read back only until then.

use vstd::prelude::*;

verus! {

/// The expiry time (seconds since the epoch) of an entry stored at
/// `now_secs` with a time-to-live of `ttl_secs` seconds.
pub fn expiry_time(now_secs: i64, ttl_secs: i64) -> (r: i64)
    requires
        i64::MIN <= now_secs + ttl_secs <= i64::MAX,
    ensures
        r == now_secs + ttl_secs,
{
    now_secs + ttl_secs
}

/// Whether an entry expiring at `expires_at` may still be served at
/// `now_secs`: until the expiry time has passed.
pub fn entry_is_fresh(expires_at: i64, now_secs: i64) -> (r: bool)
    ensures
        r == (now_secs <= expires_at),
{
    !(expires_at < now_secs)
}

} // verus!
