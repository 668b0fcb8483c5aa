//! Google News through its RSS search endpoint: a search source that needs
//! no key. The query goes to the search URL's parameters and the upstream
//! ranking is trusted as is (no local keyword filter).

use vstd::prelude::*;

use crate::error::FetchError;
use crate::external::pair_views;
use crate::model::{doc_views, opt_view, Document, SearchQuery, SourceKind, Timestamp};
use crate::source::RatePolicy;
use crate::sources::feed_common::{entries_agree, feed_docs, feed_to_docs, filter_terms, FeedEntry};
use crate::sources::{check_query_text, push_param};
use crate::text::{owned, trim};

verus! {

/// Settings of the Google News search source.
pub struct GoogleNewsSource {
    pub base_url: String,
    pub hl: String,
    pub gl: String,
    pub ceid: String,
    pub language: Option<String>,
}

impl GoogleNewsSource {
    /// The public endpoint, US English (`hl=en-US`, `gl=US`, `ceid=US:en`),
    /// documents tagged `en`.
    pub fn new() -> (r: Self)
        ensures
            r.base_url@ == "https://news.google.com/rss/search"@,
            r.hl@ == "en-US"@,
            r.gl@ == "US"@,
            r.ceid@ == "US:en"@,
            opt_view(r.language) == Some("en"@),
    {
        GoogleNewsSource {
            base_url: owned("https://news.google.com/rss/search"),
            hl: owned("en-US"),
            gl: owned("US"),
            ceid: owned("US:en"),
            language: Some(owned("en")),
        }
    }

    /// The same settings with another endpoint (a mock server in tests).
    pub fn with_base_url(self, base_url: String) -> (r: Self)
        ensures
            r.base_url@ == base_url@,
            r.hl@ == self.hl@,
            r.gl@ == self.gl@,
            r.ceid@ == self.ceid@,
            opt_view(r.language) == opt_view(self.language),
    {
        GoogleNewsSource { base_url, ..self }
    }

    /// The same endpoint with another locale (`hl`, `gl`, `ceid`) and the
    /// language tag given to documents.
    pub fn with_locale(self, hl: String, gl: String, ceid: String, language: String) -> (r: Self)
        ensures
            r.base_url@ == self.base_url@,
            r.hl@ == hl@,
            r.gl@ == gl@,
            r.ceid@ == ceid@,
            opt_view(r.language) == Some(language@),
    {
        GoogleNewsSource { base_url: self.base_url, hl, gl, ceid, language: Some(language) }
    }

    /// The search request's query parameters: `q`, `hl`, `gl`, `ceid`, in
    /// that order. A blank query is refused with `InvalidQuery("empty query
    /// text")`.
    pub fn search_params(&self, query: &SearchQuery) -> (r: Result<Vec<(String, String)>, FetchError>)
        ensures
            match r {
                Ok(ps) => trim(query.text@).len() > 0 && pair_views(ps@) == seq![
                    ("q"@, query.text@),
                    ("hl"@, self.hl@),
                    ("gl"@, self.gl@),
                    ("ceid"@, self.ceid@),
                ],
                Err(FetchError::InvalidQuery(m)) => trim(query.text@).len() == 0 && m@
                    == "empty query text"@,
                Err(_) => false,
            },
    {
        match check_query_text(query.text.as_str()) {
            Ok(()) => {},
            Err(e) => return Err(e),
        }
        let mut ps: Vec<(String, String)> = Vec::new();
        push_param(&mut ps, "q", query.text.clone());
        push_param(&mut ps, "hl", self.hl.clone());
        push_param(&mut ps, "gl", self.gl.clone());
        push_param(&mut ps, "ceid", self.ceid.clone());
        Ok(ps)
    }

    /// The documents of a search response body: every feed item, tagged
    /// with the configured language, without a keyword filter.
    pub fn docs_from_body(&self, body: &[u8]) -> (r: Result<Vec<Document>, FetchError>)
        ensures
            match r {
                Ok(docs) => crate::external::feed_parse_error(body@) is None && exists|
                    entries: Seq<FeedEntry>,
                    now: Timestamp,
                | entries_agree(entries, crate::external::feed_entry_models(body@)) && doc_views(docs@)
                    == #[trigger] feed_docs(entries, SourceKind::News, opt_view(self.language), seq![], now),
                Err(FetchError::Parse(m)) => crate::external::feed_parse_error(body@) == Some(m@),
                Err(_) => false,
            },
    {
        let language = match &self.language {
            Some(l) => Some(l.clone()),
            None => None,
        };
        let r = feed_to_docs(body, SourceKind::News, language, None);
        assert(filter_terms(None) == Seq::<Seq<char>>::empty());
        r
    }

    /// No minimum interval, two concurrent requests, no daily quota.
    pub fn rate_policy(&self) -> (r: RatePolicy)
        ensures
            r.min_interval_ms == 0,
            r.max_concurrency == 2,
            r.daily_quota is None,
    {
        RatePolicy { min_interval_ms: 0, max_concurrency: 2, daily_quota: None }
    }
}

} // verus!
