//! Per-source request policy used to configure rate limiting.

use vstd::prelude::*;

verus! {

/// Rate-limit policy of a source.
#[derive(Debug, Clone)]
pub struct RatePolicy {
    pub min_interval_ms: u64,
    pub max_concurrency: usize,
    pub daily_quota: Option<u32>,
}

impl Default for RatePolicy {
    /// No minimum interval, four concurrent requests, no daily quota.
    fn default() -> (r: Self)
        ensures
            r.min_interval_ms == 0,
            r.max_concurrency == 4,
            r.daily_quota is None,
    {
        RatePolicy { min_interval_ms: 0, max_concurrency: 4, daily_quota: None }
    }
}

} // verus!
