//! YouTube through the Data API v3 `search.list`: video metadata only
//! (transcripts have no lawful path without the owner's rights). Needs an
//! API key.

use vstd::prelude::*;

use crate::error::FetchError;
use crate::external::{chars_of, pair_views, string_of};
use crate::model::{author_views, doc_views, Author, AuthorView, DocView, Document, SearchQuery, SourceKind, Timestamp};
use crate::normalize::{datetime_of, normalize_title, parse_datetime};
use crate::source::RatePolicy;
use crate::sources::feed_common::{assemble_doc, doc_model};
use crate::sources::{check_query_text, push_param};
use crate::text::{append_chars, collapse_ws, decimal, decimal_chars, owned, trim, trim_chars};

verus! {

/// Settings of the YouTube source.
pub struct YoutubeSource {
    pub base_url: String,
    pub api_key: String,
}

/// The number of results asked of YouTube: the query's limit within 1..=50.
pub open spec fn youtube_max_results(limit: usize) -> nat {
    if limit < 1 {
        1
    } else if limit > 50 {
        50
    } else {
        limit as nat
    }
}

impl YoutubeSource {
    /// The public endpoint with the given Data API v3 key.
    pub fn new(api_key: String) -> (r: Self)
        ensures
            r.base_url@ == "https://www.googleapis.com/youtube/v3/search"@,
            r.api_key@ == api_key@,
    {
        YoutubeSource { base_url: owned("https://www.googleapis.com/youtube/v3/search"), api_key }
    }

    /// The same key with another endpoint (a mock server in tests).
    pub fn with_base_url(self, base_url: String) -> (r: Self)
        ensures
            r.base_url@ == base_url@,
            r.api_key@ == self.api_key@,
    {
        YoutubeSource { base_url, api_key: self.api_key }
    }

    /// The search request's query parameters: `part=snippet`, `type=video`,
    /// `q`, `maxResults` (the limit within 1..=50) and `key`. A blank query
    /// is refused with `InvalidQuery("empty query text")`, then a blank key
    /// with `InvalidQuery("youtube api key not set")`.
    pub fn search_params(&self, query: &SearchQuery) -> (r: Result<Vec<(String, String)>, FetchError>)
        ensures
            match r {
                Ok(ps) => trim(query.text@).len() > 0 && trim(self.api_key@).len() > 0 && pair_views(ps@)
                    == seq![
                    ("part"@, "snippet"@),
                    ("type"@, "video"@),
                    ("q"@, query.text@),
                    ("maxResults"@, decimal(youtube_max_results(query.limit))),
                    ("key"@, self.api_key@),
                ],
                Err(FetchError::InvalidQuery(m)) => if trim(query.text@).len() == 0 {
                    m@ == "empty query text"@
                } else {
                    trim(self.api_key@).len() == 0 && m@ == "youtube api key not set"@
                },
                Err(_) => false,
            },
    {
        match check_query_text(query.text.as_str()) {
            Ok(()) => {},
            Err(e) => return Err(e),
        }
        if trim_chars(&chars_of(self.api_key.as_str())).len() == 0 {
            return Err(FetchError::InvalidQuery(owned("youtube api key not set")));
        }
        let n: u64 = if query.limit < 1 {
            1
        } else if query.limit > 50 {
            50
        } else {
            query.limit as u64
        };
        let mut ps: Vec<(String, String)> = Vec::new();
        push_param(&mut ps, "part", owned("snippet"));
        push_param(&mut ps, "type", owned("video"));
        push_param(&mut ps, "q", query.text.clone());
        push_param(&mut ps, "maxResults", string_of(decimal_chars(n).as_slice()));
        push_param(&mut ps, "key", self.api_key.clone());
        Ok(ps)
    }

    /// `search.list` costs 100 units of the default 10,000 daily: at most
    /// 100 searches a day, two at once, no minimum interval.
    pub fn rate_policy(&self) -> (r: RatePolicy)
        ensures
            r.min_interval_ms == 0,
            r.max_concurrency == 2,
            r.daily_quota == Some(100u32),
    {
        RatePolicy { min_interval_ms: 0, max_concurrency: 2, daily_quota: Some(100) }
    }
}

/// One item of a `search.list` response, its snippet flattened.
pub struct YtItem {
    pub video_id: String,
    pub title: String,
    pub description: String,
    pub channel_title: String,
    pub published_at: String,
}

/// The watch URL of a video.
pub open spec fn watch_url(video_id: Seq<char>) -> Seq<char> {
    "https://www.youtube.com/watch?v="@ + video_id
}

/// The document a video normalizes to: watch URL, collapsed title, the
/// description as is (none when empty), the channel as sole author when
/// its title is not blank, publication date from `publishedAt`.
pub open spec fn youtube_doc(it: YtItem, now: Timestamp) -> DocView {
    doc_model(
        SourceKind::Youtube,
        collapse_ws(it.title@),
        watch_url(it.video_id@),
        None,
        if trim(it.channel_title@).len() == 0 {
            seq![]
        } else {
            seq![AuthorView { name: it.channel_title@, id: None }]
        },
        datetime_of(it.published_at@),
        now,
        if it.description@.len() == 0 {
            None
        } else {
            Some(it.description@)
        },
        None,
    )
}

/// The documents of a list of items: those without a video id dropped,
/// the others normalized in order.
pub open spec fn youtube_docs(items: Seq<YtItem>, now: Timestamp) -> Seq<DocView>
    decreases items.len(),
{
    if items.len() == 0 {
        seq![]
    } else {
        let prev = youtube_docs(items.drop_last(), now);
        if items.last().video_id@.len() == 0 {
            prev
        } else {
            prev.push(youtube_doc(items.last(), now))
        }
    }
}

/// Normalizes the items of a `search.list` response, fetched at `now`.
pub fn yt_items_to_docs(items: Vec<YtItem>, now: Timestamp) -> (r: Vec<Document>)
    ensures
        doc_views(r@) == youtube_docs(items@, now),
{
    let ghost all = items@;
    let mut rest = items;
    let mut out: Vec<Document> = Vec::new();
    let ghost mut i: int = 0;
    assert(doc_views(out@) =~= youtube_docs(all.take(0), now));
    while rest.len() > 0
        invariant
            0 <= i <= all.len(),
            rest@ == all.skip(i),
            doc_views(out@) == youtube_docs(all.take(i), now),
        decreases rest@.len(),
    {
        let item = rest.remove(0);
        assert(rest@ =~= all.skip(i + 1));
        assert(all.take(i + 1).drop_last() =~= all.take(i));
        assert(all.take(i + 1).last() == item);
        let ghost iv = item;
        let YtItem { video_id, title, description, channel_title, published_at } = item;
        if video_id.as_str().unicode_len() > 0 {
            let mut url = chars_of("https://www.youtube.com/watch?v=");
            append_chars(&mut url, &chars_of(video_id.as_str()));
            let url = string_of(url.as_slice());
            let title = normalize_title(title.as_str());
            let summary = if description.as_str().unicode_len() == 0 {
                None
            } else {
                Some(description)
            };
            let mut authors: Vec<Author> = Vec::new();
            if trim_chars(&chars_of(channel_title.as_str())).len() > 0 {
                authors.push(Author::new(channel_title));
            }
            let published = parse_datetime(published_at.as_str());
            assert(author_views(authors@) =~= if trim(iv.channel_title@).len() == 0 {
                seq![]
            } else {
                seq![AuthorView { name: iv.channel_title@, id: None }]
            });
            let d = assemble_doc(SourceKind::Youtube, title, url, None, authors, published, now, summary, None);
            let ghost before = doc_views(out@);
            out.push(d);
            assert(doc_views(out@) =~= before.push(youtube_doc(iv, now)));
        }
        proof {
            i = i + 1;
        }
    }
    assert(all.take(i) =~= all);
    out
}

} // verus!
