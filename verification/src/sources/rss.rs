//! Subscription feeds (RSS/Atom blogs): several trusted feeds are fetched
//! at once and their items filtered by the query's words. Feeds that fail
//! are skipped; only when every feed fails is the search an error.

use vstd::prelude::*;

use crate::error::FetchError;
use crate::external::{chars_of, string_of};
use crate::source::RatePolicy;
use crate::text::{append_chars, decimal, decimal_chars};

verus! {

/// The documents of the feeds that succeeded, in feed order.
pub open spec fn feed_results_docs<T>(rs: Seq<Result<Vec<T>, FetchError>>) -> Seq<T>
    decreases rs.len(),
{
    if rs.len() == 0 {
        seq![]
    } else {
        feed_results_docs(rs.drop_last()) + match rs.last() {
            Ok(ds) => ds@,
            Err(_) => seq![],
        }
    }
}

/// The number of feeds that failed.
pub open spec fn failure_count<T>(rs: Seq<Result<Vec<T>, FetchError>>) -> nat
    decreases rs.len(),
{
    if rs.len() == 0 {
        0
    } else {
        failure_count(rs.drop_last()) + if rs.last() is Err {
            1nat
        } else {
            0nat
        }
    }
}

/// Combines the outcomes of the subscribed feeds (their documents of any
/// representation): the documents of the feeds that succeeded, in feed
/// order, unless every feed failed, which is `Http("all <n> RSS feeds
/// failed")` with `n` the number of feeds. A feed that succeeds without
/// items is still a success; no feeds at all is an empty success.
pub fn combine_feed_results<T>(results: Vec<Result<Vec<T>, FetchError>>) -> (r: Result<
    Vec<T>,
    FetchError,
>)
    ensures
        match r {
            Ok(ds) => ds@ == feed_results_docs(results@) && !(results@.len() > 0 && failure_count(
                results@,
            ) == results@.len()),
            Err(FetchError::Http(m)) => results@.len() > 0 && failure_count(results@)
                == results@.len() && m@ == "all "@ + decimal(results@.len()) + " RSS feeds failed"@,
            Err(_) => false,
        },
{
    let ghost all = results@;
    let n = results.len();
    let mut rest = results;
    let mut docs: Vec<T> = Vec::new();
    let mut failures: usize = 0;
    let ghost mut i: int = 0;
    assert(docs@ =~= feed_results_docs(all.take(0)));
    while rest.len() > 0
        invariant
            0 <= i <= all.len(),
            all.len() == n,
            rest@ == all.skip(i),
            docs@ == feed_results_docs(all.take(i)),
            failures == failure_count(all.take(i)),
            failures <= i,
        decreases rest@.len(),
    {
        let r = rest.remove(0);
        assert(rest@ =~= all.skip(i + 1));
        assert(all.take(i + 1).drop_last() =~= all.take(i));
        assert(all.take(i + 1).last() == r);
        match r {
            Ok(ds) => {
                let ghost before = docs@;
                let mut ds = ds;
                let ghost added = ds@;
                docs.append(&mut ds);
                assert(docs@ =~= before + added);
            },
            Err(_) => {
                failures = failures + 1;
            },
        }
        proof {
            i = i + 1;
        }
    }
    assert(all.take(i) =~= all);
    if n > 0 && failures == n {
        let mut m = chars_of("all ");
        append_chars(&mut m, &decimal_chars(n as u64));
        append_chars(&mut m, &chars_of(" RSS feeds failed"));
        return Err(FetchError::Http(string_of(m.as_slice())));
    }
    Ok(docs)
}

/// Subscription feeds are fetched all at once: no minimum interval, as
/// many concurrent requests as there are feeds (at least one), no quota.
pub fn rss_rate_policy(feed_count: usize) -> (r: RatePolicy)
    ensures
        r.min_interval_ms == 0,
        r.max_concurrency == if feed_count == 0 {
            1
        } else {
            feed_count
        },
        r.daily_quota is None,
{
    let n = if feed_count == 0 {
        1
    } else {
        feed_count
    };
    RatePolicy { min_interval_ms: 0, max_concurrency: n, daily_quota: None }
}

} // verus!
