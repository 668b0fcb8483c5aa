//! Source adapters' logic: turning each source's parsed response into
//! normalized documents, and the decisions each adapter makes around its
//! requests. The requests themselves are made by the caller.

pub mod arxiv;
pub mod arxiv_oai;
pub mod feed_common;
pub mod news;
pub mod rss;
pub mod web;
pub mod youtube;

use vstd::prelude::*;

use crate::error::FetchError;
use crate::model::SourceKind;
use crate::source::RatePolicy;
use crate::external::chars_of;
use crate::external::{pair_views, string_of};
use crate::text::{owned, append_chars, eq_chars, decimal, decimal_chars, trim, trim_chars};

verus! {

/// The query check of the search sources: a query whose text is blank is
/// refused with `InvalidQuery("empty query text")`.
pub fn check_query_text(text: &str) -> (r: Result<(), FetchError>)
    ensures
        match r {
            Ok(()) => trim(text@).len() > 0,
            Err(FetchError::InvalidQuery(m)) => trim(text@).len() == 0 && m@ == "empty query text"@,
            Err(_) => false,
        },
{
    if trim_chars(&chars_of(text)).len() == 0 {
        Err(FetchError::InvalidQuery(crate::external::string_of(chars_of("empty query text").as_slice())))
    } else {
        Ok(())
    }
}

/// The status check every source makes before reading a body: a 2xx
/// status passes; any other fails with `Http("<service> HTTP <status>")`.
pub fn check_status(service: &str, status: u16) -> (r: Result<(), FetchError>)
    ensures
        match r {
            Ok(()) => 200 <= status <= 299,
            Err(FetchError::Http(m)) => !(200 <= status <= 299) && m@ == service@ + " HTTP "@ + decimal(
                status as nat,
            ),
            Err(_) => false,
        },
{
    if 200 <= status && status <= 299 {
        Ok(())
    } else {
        let mut m = chars_of(service);
        append_chars(&mut m, &chars_of(" HTTP "));
        append_chars(&mut m, &decimal_chars(status as u64));
        Err(FetchError::Http(string_of(m.as_slice())))
    }
}

/// Appends a query parameter.
pub fn push_param(params: &mut Vec<(String, String)>, key: &str, value: String)
    ensures
        pair_views(final(params)@) == pair_views(old(params)@).push((key@, value@)),
{
    let ghost before = pair_views(params@);
    params.push((owned(key), value));
    assert(pair_views(params@) =~= before.push((key@, value@)));
}

/// The source a name selects (`arxiv`, `news`, `blog`, `youtube`, `web`),
/// given whether subscription feeds and the YouTube and Brave keys were
/// supplied: blogs need feeds, YouTube and the web need their keys; other
/// names select nothing.
pub open spec fn chosen_source(name: Seq<char>, has_feeds: bool, has_youtube_key: bool, has_brave_key: bool) -> Option<
    SourceKind,
> {
    if name == "arxiv"@ {
        Some(SourceKind::Arxiv)
    } else if name == "news"@ {
        Some(SourceKind::News)
    } else if name == "blog"@ && has_feeds {
        Some(SourceKind::Blog)
    } else if name == "youtube"@ && has_youtube_key {
        Some(SourceKind::Youtube)
    } else if name == "web"@ && has_brave_key {
        Some(SourceKind::Web)
    } else {
        None
    }
}

/// The sources chosen by a list of names, in order.
pub open spec fn chosen_sources(names: Seq<Seq<char>>, has_feeds: bool, has_youtube_key: bool, has_brave_key: bool) -> Seq<
    SourceKind,
>
    decreases names.len(),
{
    if names.len() == 0 {
        seq![]
    } else {
        let prev = chosen_sources(names.drop_last(), has_feeds, has_youtube_key, has_brave_key);
        match chosen_source(names.last(), has_feeds, has_youtube_key, has_brave_key) {
            Some(k) => prev.push(k),
            None => prev,
        }
    }
}

/// The source names used when none are given: arXiv and news, which need
/// no key.
pub open spec fn default_source_names() -> Seq<Seq<char>> {
    seq!["arxiv"@, "news"@]
}

/// The sources to register for the requested names (arXiv and news when
/// none are given), in order; names whose feeds or key are missing, and
/// unknown names, are passed over.
pub fn plan_sources(names: Option<Vec<String>>, has_feeds: bool, has_youtube_key: bool, has_brave_key: bool) -> (r: Vec<
    SourceKind,
>)
    ensures
        r@ == chosen_sources(
            match names {
                Some(v) => crate::model::string_views(v@),
                None => default_source_names(),
            },
            has_feeds,
            has_youtube_key,
            has_brave_key,
        ),
{
    let names = match names {
        Some(v) => v,
        None => {
            let mut v: Vec<String> = Vec::new();
            v.push(owned("arxiv"));
            v.push(owned("news"));
            assert(crate::model::string_views(v@) =~= default_source_names());
            v
        },
    };
    let ghost all = crate::model::string_views(names@);
    let mut r: Vec<SourceKind> = Vec::new();
    let mut i: usize = 0;
    while i < names.len()
        invariant
            i <= names@.len(),
            all == crate::model::string_views(names@),
            r@ == chosen_sources(all.take(i as int), has_feeds, has_youtube_key, has_brave_key),
        decreases names@.len() - i,
    {
        assert(all.take(i + 1).drop_last() =~= all.take(i as int));
        let n = chars_of(names[i].as_str());
        assert(n@ == all[i as int]);
        let choice = if eq_chars(&n, &chars_of("arxiv")) {
            Some(SourceKind::Arxiv)
        } else if eq_chars(&n, &chars_of("news")) {
            Some(SourceKind::News)
        } else if eq_chars(&n, &chars_of("blog")) && has_feeds {
            Some(SourceKind::Blog)
        } else if eq_chars(&n, &chars_of("youtube")) && has_youtube_key {
            Some(SourceKind::Youtube)
        } else if eq_chars(&n, &chars_of("web")) && has_brave_key {
            Some(SourceKind::Web)
        } else {
            None
        };
        assert(choice == chosen_source(all[i as int], has_feeds, has_youtube_key, has_brave_key));
        match choice {
            Some(k) => r.push(k),
            None => {},
        }
        i += 1;
    }
    assert(all.take(i as int) =~= all);
    r
}

/// The minimum interval a source's requests must keep (milliseconds), when
/// its policy sets one; a rate limiter is attached to such a source only.
pub fn limiter_interval(policy: &RatePolicy) -> (r: Option<u64>)
    ensures
        match r {
            Some(ms) => policy.min_interval_ms > 0 && ms == policy.min_interval_ms,
            None => policy.min_interval_ms == 0,
        },
{
    if policy.min_interval_ms > 0 {
        Some(policy.min_interval_ms)
    } else {
        None
    }
}

} // verus!
