//! Web search behind a provider abstraction (the supply of web search APIs
//! changes often and is mostly paid). The reference provider is the Brave
//! Search API, an independent index that needs an API key.

use vstd::prelude::*;

use crate::error::FetchError;
use crate::external::pair_views;
use crate::model::{doc_views, DocView, Document, SearchQuery, SourceKind, Timestamp};
use crate::normalize::{datetime_of, normalize_title, parse_datetime, strip_html, strip_html_spec};
use crate::source::RatePolicy;
use crate::sources::feed_common::{assemble_doc, doc_model};
use crate::sources::push_param;
use crate::text::{collapse_ws, decimal, decimal_chars, owned, trim, trim_chars};
use crate::external::{chars_of, string_of};

verus! {

/// Web search sources make no more than two requests at once and have no
/// minimum interval and no quota.
pub fn web_rate_policy() -> (r: RatePolicy)
    ensures
        r.min_interval_ms == 0,
        r.max_concurrency == 2,
        r.daily_quota is None,
{
    RatePolicy { min_interval_ms: 0, max_concurrency: 2, daily_quota: None }
}

/// Settings of the Brave Search API provider.
pub struct BraveProvider {
    pub base_url: String,
    pub api_key: String,
}

/// The number of results asked of Brave: the query's limit within 1..=20.
pub open spec fn brave_count(limit: usize) -> nat {
    if limit < 1 {
        1
    } else if limit > 20 {
        20
    } else {
        limit as nat
    }
}

impl BraveProvider {
    /// The public endpoint with the given subscription token.
    pub fn new(api_key: String) -> (r: Self)
        ensures
            r.base_url@ == "https://api.search.brave.com/res/v1/web/search"@,
            r.api_key@ == api_key@,
    {
        BraveProvider { base_url: owned("https://api.search.brave.com/res/v1/web/search"), api_key }
    }

    /// The same key with another endpoint (a mock server in tests).
    pub fn with_base_url(self, base_url: String) -> (r: Self)
        ensures
            r.base_url@ == base_url@,
            r.api_key@ == self.api_key@,
    {
        BraveProvider { base_url, api_key: self.api_key }
    }

    /// The name of the provider.
    pub fn name(&self) -> (r: &'static str)
        ensures
            r@ == "brave"@,
    {
        "brave"
    }

    /// The search request's query parameters, `q` and `count` (the limit
    /// within 1..=20). A blank API key is refused with
    /// `InvalidQuery("brave api key not set")`.
    pub fn search_params(&self, query: &SearchQuery) -> (r: Result<Vec<(String, String)>, FetchError>)
        ensures
            match r {
                Ok(ps) => trim(self.api_key@).len() > 0 && pair_views(ps@) == seq![
                    ("q"@, query.text@),
                    ("count"@, decimal(brave_count(query.limit))),
                ],
                Err(FetchError::InvalidQuery(m)) => trim(self.api_key@).len() == 0 && m@
                    == "brave api key not set"@,
                Err(_) => false,
            },
    {
        if trim_chars(&chars_of(self.api_key.as_str())).len() == 0 {
            return Err(FetchError::InvalidQuery(owned("brave api key not set")));
        }
        let count: u64 = if query.limit < 1 {
            1
        } else if query.limit > 20 {
            20
        } else {
            query.limit as u64
        };
        let mut ps: Vec<(String, String)> = Vec::new();
        push_param(&mut ps, "q", query.text.clone());
        push_param(&mut ps, "count", string_of(decimal_chars(count).as_slice()));
        Ok(ps)
    }
}

/// One result of a Brave web search response.
pub struct BraveResult {
    pub title: String,
    pub url: String,
    pub description: String,
    pub page_age: Option<String>,
}

/// The document a Brave result normalizes to: collapsed title, markup
/// stripped from the description (none when empty), publication date from
/// `page_age`, no authors, no language.
pub open spec fn brave_doc(r: BraveResult, now: Timestamp) -> DocView {
    doc_model(
        SourceKind::Web,
        collapse_ws(r.title@),
        r.url@,
        None,
        seq![],
        match r.page_age {
            Some(p) => datetime_of(p@),
            None => None,
        },
        now,
        if r.description@.len() == 0 {
            None
        } else {
            Some(strip_html_spec(r.description@))
        },
        None,
    )
}

/// The documents of a list of Brave results: those without a URL are
/// dropped, the others normalized in order.
pub open spec fn brave_docs(rs: Seq<BraveResult>, now: Timestamp) -> Seq<DocView>
    decreases rs.len(),
{
    if rs.len() == 0 {
        seq![]
    } else {
        let prev = brave_docs(rs.drop_last(), now);
        if rs.last().url@.len() == 0 {
            prev
        } else {
            prev.push(brave_doc(rs.last(), now))
        }
    }
}

/// Normalizes the results of a Brave response, fetched at `now`.
pub fn brave_results_to_docs(results: Vec<BraveResult>, now: Timestamp) -> (r: Vec<Document>)
    ensures
        doc_views(r@) == brave_docs(results@, now),
{
    let ghost all = results@;
    let mut rest = results;
    let mut out: Vec<Document> = Vec::new();
    let ghost mut i: int = 0;
    assert(doc_views(out@) =~= brave_docs(all.take(0), now));
    while rest.len() > 0
        invariant
            0 <= i <= all.len(),
            rest@ == all.skip(i),
            doc_views(out@) == brave_docs(all.take(i), now),
        decreases rest@.len(),
    {
        let res = rest.remove(0);
        assert(rest@ =~= all.skip(i + 1));
        assert(all.take(i + 1).drop_last() =~= all.take(i));
        assert(all.take(i + 1).last() == res);
        let ghost rv = res;
        let BraveResult { title, url, description, page_age } = res;
        if url.as_str().unicode_len() > 0 {
            let title = normalize_title(title.as_str());
            let published_at = match &page_age {
                Some(p) => parse_datetime(p.as_str()),
                None => None,
            };
            let summary = if description.as_str().unicode_len() == 0 {
                None
            } else {
                Some(strip_html(description.as_str()))
            };
            let d = assemble_doc(SourceKind::Web, title, url, None, Vec::new(), published_at, now, summary, None);
            let ghost before = doc_views(out@);
            assert(crate::model::author_views(Seq::<crate::model::Author>::empty()) =~= seq![]);
            out.push(d);
            assert(doc_views(out@) =~= before.push(brave_doc(rv, now)));
        }
        proof {
            i = i + 1;
        }
    }
    assert(all.take(i) =~= all);
    out
}

} // verus!
