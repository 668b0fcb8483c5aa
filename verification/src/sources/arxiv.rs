//! arXiv through its live search API (Atom responses): normalization of
//! entries, arXiv ID extraction, and the response handling that checks the
//! HTTP status before the body and retries HTTP 429 with backoff.

use vstd::prelude::*;

use crate::error::FetchError;
use crate::external::{chars_of, pair_views, parse_rfc3339, rfc3339_instant, string_of};
use crate::model::{doc_views, opt_view, Document, SearchQuery, SourceKind, Timestamp};
use crate::sources::{check_query_text, push_param};
use crate::normalize::normalize_title;
use crate::source::RatePolicy;
use crate::sources::feed_common::{assemble_doc, author_list, doc_model, named_authors};
use crate::text::{
    all_ascii_digits, append_chars, collapse_ws, decimal, decimal_chars, find_chars,
    first_match, last_index_of, owned, rfind_char, skip_chars, take_chars, trim, trim_chars,
};

verus! {

/// An Atom entry of the arXiv API as the normalization reads it.
pub struct AtomEntry {
    pub title: String,
    pub id: String,
    pub published: Option<String>,
    pub summary: Option<String>,
    /// Author names.
    pub authors: Vec<String>,
}

/// The second piece of `s` split at `pat` (what `s.split(pat).nth(1)`
/// yields): the text between the first and the second occurrence, or after
/// the first when there is no second; `None` without an occurrence.
pub open spec fn second_piece(s: Seq<char>, pat: Seq<char>) -> Option<Seq<char>> {
    let i = first_match(s, pat);
    if i < 0 {
        None
    } else {
        let rest = s.skip(i + pat.len());
        let j = first_match(rest, pat);
        Some(
            if j < 0 {
                rest
            } else {
                rest.take(j)
            },
        )
    }
}

/// The identifier without a version suffix: text up to the last `v` when
/// what follows it is a non-empty run of ASCII digits.
pub open spec fn strip_version(p: Seq<char>) -> Seq<char> {
    let pos = last_index_of(p, 'v');
    if pos >= 0 && pos + 1 < p.len() && all_ascii_digits(p.skip(pos + 1)) {
        p.take(pos)
    } else {
        p
    }
}

/// The arXiv ID in an abstract URL: the piece after `/abs/`, version
/// suffix removed.
pub open spec fn arxiv_id_of(url: Seq<char>) -> Option<Seq<char>> {
    match second_piece(url, "/abs/"@) {
        Some(a) => Some(strip_version(a)),
        None => None,
    }
}

/// `http://arxiv.org/abs/2301.00001v2` -> `2301.00001` (version suffix
/// removed); old-style identifiers keep their slash
/// (`math.GT/0309136v1` -> `math.GT/0309136`). `None` without `/abs/`.
pub fn arxiv_id_from_id_url(id_url: &str) -> (r: Option<String>)
    ensures
        opt_view(r) == arxiv_id_of(id_url@),
{
    let s = chars_of(id_url);
    let pat = chars_of("/abs/");
    let slen = s.len();
    let i = match find_chars(&s, &pat) {
        Some(i) => i,
        None => return None,
    };
    assert(i + pat@.len() <= slen);
    let rest = skip_chars(&s, i + pat.len());
    let after = match find_chars(&rest, &pat) {
        Some(j) => take_chars(&rest, j),
        None => rest,
    };
    assert(Some(after@) == second_piece(s@, pat@));
    let core = match rfind_char(&after, 'v') {
        Some(pos) => {
            if pos + 1 < after.len() {
                let tail = skip_chars(&after, pos + 1);
                let mut digits = true;
                let mut k: usize = 0;
                while k < tail.len()
                    invariant
                        k <= tail@.len(),
                        digits == forall|q: int| 0 <= q < k ==> '0' <= #[trigger] tail@[q] && tail@[q] <= '9',
                    decreases tail@.len() - k,
                {
                    if !(tail[k] >= '0' && tail[k] <= '9') {
                        digits = false;
                    }
                    k += 1;
                }
                if digits {
                    take_chars(&after, pos)
                } else {
                    after
                }
            } else {
                after
            }
        },
        None => after,
    };
    Some(string_of(core.as_slice()))
}

/// The document an Atom entry normalizes to.
pub open spec fn atom_doc(e: AtomEntry, now: Timestamp) -> crate::model::DocView {
    doc_model(
        SourceKind::Arxiv,
        collapse_ws(e.title@),
        e.id@,
        arxiv_id_of(e.id@),
        named_authors(crate::model::string_views(e.authors@)),
        match e.published {
            Some(p) => rfc3339_instant(p@),
            None => None,
        },
        now,
        match e.summary {
            Some(s) => Some(collapse_ws(s@)),
            None => None,
        },
        Some("en"@),
    )
}

/// Normalizes one Atom entry: collapsed title and summary, arXiv ID and
/// canonical URL from the entry id, RFC 3339 publication date, blank
/// author names dropped, language `en`.
pub fn entry_to_doc(e: AtomEntry, now: Timestamp) -> (d: Document)
    ensures
        d@ == atom_doc(e, now),
{
    let ghost ev = e;
    let AtomEntry { title, id, published, summary, authors } = e;
    let title = normalize_title(title.as_str());
    let arxiv_id = arxiv_id_from_id_url(id.as_str());
    let published_at = match published {
        Some(p) => parse_rfc3339(p.as_str()),
        None => None,
    };
    let summary = match summary {
        Some(s) => Some(normalize_title(s.as_str())),
        None => None,
    };
    let authors = author_list(authors);
    let language = Some(string_of(chars_of("en").as_slice()));
    assert(opt_view(summary) == match ev.summary {
        Some(s) => Some(collapse_ws(s@)),
        None => None::<Seq<char>>,
    });
    assemble_doc(SourceKind::Arxiv, title, id, arxiv_id, authors, published_at, now, summary, language)
}

/// Normalizes the entries of an arXiv Atom feed, in order.
pub fn entries_to_docs(entries: Vec<AtomEntry>, now: Timestamp) -> (r: Vec<Document>)
    ensures
        doc_views(r@) == entries@.map_values(|e: AtomEntry| atom_doc(e, now)),
{
    let ghost all = entries@;
    let mut rest = entries;
    let mut r: Vec<Document> = Vec::new();
    let ghost mut i: int = 0;
    while rest.len() > 0
        invariant
            0 <= i <= all.len(),
            rest@ == all.skip(i),
            doc_views(r@) == all.take(i).map_values(|e: AtomEntry| atom_doc(e, now)),
        decreases rest@.len(),
    {
        let e = rest.remove(0);
        assert(rest@ =~= all.skip(i + 1));
        assert(e == all[i]);
        let ghost before = doc_views(r@);
        let d = entry_to_doc(e, now);
        r.push(d);
        assert(doc_views(r@) =~= before.push(d@));
        assert(all.take(i + 1) =~= all.take(i).push(all[i]));
        proof {
            i = i + 1;
        }
        assert(doc_views(r@) =~= all.take(i).map_values(|e: AtomEntry| atom_doc(e, now)));
    }
    assert(all.take(i) =~= all);
    r
}

/// Nanoseconds in the longest `std::time::Duration`.
pub const DURATION_MAX_NANOS: u128 = 18_446_744_073_709_551_615_999_999_999;

/// The retry backoff factor: `2^min(attempt, 5)`.
pub open spec fn backoff_factor(attempt: u32) -> u128 {
    if attempt == 0 {
        1
    } else if attempt == 1 {
        2
    } else if attempt == 2 {
        4
    } else if attempt == 3 {
        8
    } else if attempt == 4 {
        16
    } else {
        32
    }
}

/// Exponential backoff in nanoseconds: `base * 2^min(attempt, 5)`, at most
/// 30 seconds.
pub open spec fn backoff_of(base_nanos: u128, attempt: u32) -> u128 {
    let d = base_nanos * backoff_factor(attempt);
    if d < 30_000_000_000 {
        d as u128
    } else {
        30_000_000_000
    }
}

/// Exponential backoff for the `attempt`-th retry (nanoseconds): the base
/// delay doubled per attempt up to a factor of 32, capped at 30 seconds.
pub fn backoff(base_nanos: u128, attempt: u32) -> (r: u128)
    requires
        base_nanos <= DURATION_MAX_NANOS,
    ensures
        r == backoff_of(base_nanos, attempt),
{
    let factor: u128 = if attempt == 0 {
        1
    } else if attempt == 1 {
        2
    } else if attempt == 2 {
        4
    } else if attempt == 3 {
        8
    } else if attempt == 4 {
        16
    } else {
        32
    };
    let d = base_nanos * factor;
    if d < 30_000_000_000 {
        d
    } else {
        30_000_000_000
    }
}

/// Value of a run of decimal digits.
pub open spec fn digits_value(s: Seq<char>) -> nat
    decreases s.len(),
{
    if s.len() == 0 {
        0
    } else {
        digits_value(s.drop_last()) * 10 + (s.last() as nat - 48) as nat
    }
}

/// What `str::parse::<u64>` yields: an optional `+`, then one or more ASCII
/// digits whose value fits in 64 bits.
pub open spec fn u64_text_value(s: Seq<char>) -> Option<u64> {
    let d = if s.len() > 0 && s[0] == '+' {
        s.drop_first()
    } else {
        s
    };
    if d.len() > 0 && all_ascii_digits(d) && digits_value(d) <= u64::MAX {
        Some(digits_value(d) as u64)
    } else {
        None
    }
}

/// Parses a `Retry-After` header value given in seconds (surrounding
/// whitespace allowed).
pub fn parse_retry_after(value: &str) -> (r: Option<u64>)
    ensures
        r == u64_text_value(trim(value@)),
{
    let t = trim_chars(&chars_of(value));
    let start: usize = if t.len() > 0 && t[0] == '+' {
        1
    } else {
        0
    };
    let d = skip_chars(&t, start);
    assert(start == 1 ==> d@ =~= t@.drop_first());
    assert(start == 0 ==> d@ =~= t@);
    let ghost sd = {
        let tv = trim(value@);
        if tv.len() > 0 && tv[0] == '+' {
            tv.drop_first()
        } else {
            tv
        }
    };
    assert(d@ == sd);
    if d.len() == 0 {
        return None;
    }
    let mut acc: u64 = 0;
    let mut overflow = false;
    let mut i: usize = 0;
    while i < d.len()
        invariant
            i <= d@.len(),
            d@ == sd,
            d@.len() > 0,
            sd == ({
                let tv = trim(value@);
                if tv.len() > 0 && tv[0] == '+' {
                    tv.drop_first()
                } else {
                    tv
                }
            }),
            all_ascii_digits(d@.take(i as int)),
            !overflow ==> acc as nat == digits_value(d@.take(i as int)),
            overflow ==> digits_value(d@.take(i as int)) > u64::MAX,
        decreases d@.len() - i,
    {
        let c = d[i];
        if !(c >= '0' && c <= '9') {
            assert(!all_ascii_digits(d@)) by {
                assert(d@[i as int] == c);
            }
            return None;
        }
        assert(d@.take(i + 1).drop_last() =~= d@.take(i as int));
        let digit = (c as u32 - 48) as u64;
        assert(digit as nat == (c as nat - 48) as nat);
        if !overflow {
            match acc.checked_mul(10) {
                Some(v10) => match v10.checked_add(digit) {
                    Some(v) => {
                        acc = v;
                    },
                    None => {
                        overflow = true;
                    },
                },
                None => {
                    overflow = true;
                },
            }
        }
        i += 1;
        assert(all_ascii_digits(d@.take(i as int))) by {
            assert forall|k: int| 0 <= k < i implies '0' <= #[trigger] d@.take(i as int)[k] && d@.take(i as int)[k] <= '9' by {
                if k < i - 1 {
                    assert(d@.take(i as int)[k] == d@.take(i - 1)[k]);
                }
            }
        }
    }
    assert(d@.take(i as int) =~= d@);
    if overflow {
        None
    } else {
        Some(acc)
    }
}

/// What to do with an API response.
pub enum FetchStep {
    /// Wait this many nanoseconds, then send the request again.
    Retry(u128),
    /// Give up with this error.
    Fail(FetchError),
    /// The status is a success: read the body.
    ReadBody,
}

/// Whether `r` is the decision on a response: HTTP 429 is retried while
/// attempts remain, waiting `Retry-After` seconds when given, else the
/// backoff; any other non-2xx status fails with `arXiv HTTP <status>`; a
/// 2xx status reads the body.
pub open spec fn is_arxiv_step(
    r: FetchStep,
    status: u16,
    attempt: u32,
    max_retries: u32,
    retry_after_secs: Option<u64>,
    base_delay_nanos: u128,
) -> bool {
    match r {
        FetchStep::Retry(wait) => status == 429 && attempt < max_retries && wait == match retry_after_secs {
            Some(secs) => secs as u128 * 1_000_000_000,
            None => backoff_of(base_delay_nanos, attempt) as int,
        },
        FetchStep::Fail(FetchError::Http(m)) => !(status == 429 && attempt < max_retries) && !(200
            <= status <= 299) && m@ == "arXiv HTTP "@ + decimal(status as nat),
        FetchStep::Fail(_) => false,
        FetchStep::ReadBody => !(status == 429 && attempt < max_retries) && 200 <= status <= 299,
    }
}

/// Decides on an arXiv API response before its body is read: HTTP 429 is
/// retried while attempts remain, waiting `Retry-After` seconds when given,
/// else the backoff; any other non-2xx status fails with `arXiv HTTP
/// <status>` (so a 429 HTML page is never parsed as a feed); a 2xx status
/// reads the body.
pub fn arxiv_response_step(
    status: u16,
    attempt: u32,
    max_retries: u32,
    retry_after_secs: Option<u64>,
    base_delay_nanos: u128,
) -> (r: FetchStep)
    requires
        base_delay_nanos <= DURATION_MAX_NANOS,
    ensures
        is_arxiv_step(r, status, attempt, max_retries, retry_after_secs, base_delay_nanos),
{
    if status == 429 && attempt < max_retries {
        let wait = match retry_after_secs {
            Some(secs) => secs as u128 * 1_000_000_000,
            None => backoff(base_delay_nanos, attempt),
        };
        return FetchStep::Retry(wait);
    }
    if !(200 <= status && status <= 299) {
        let mut m = chars_of("arXiv HTTP ");
        append_chars(&mut m, &decimal_chars(status as u64));
        return FetchStep::Fail(FetchError::Http(string_of(m.as_slice())));
    }
    FetchStep::ReadBody
}

/// arXiv's recommended policy: 3 seconds between requests, one connection.
pub fn arxiv_rate_policy() -> (r: RatePolicy)
    ensures
        r.min_interval_ms == 3000,
        r.max_concurrency == 1,
        r.daily_quota is None,
{
    RatePolicy { min_interval_ms: 3000, max_concurrency: 1, daily_quota: None }
}

/// Settings of the arXiv live search source.
pub struct ArxivSource {
    pub base_url: String,
    pub user_agent: String,
    pub max_retries: u32,
    /// Base retry delay, in nanoseconds.
    pub retry_base_delay_nanos: u128,
}

/// The number of results asked of the API: the query's limit, at least 1.
pub open spec fn arxiv_max_results(limit: usize) -> nat {
    if limit < 1 {
        1
    } else {
        limit as nat
    }
}

impl ArxivSource {
    /// The public endpoint, an identifying User-Agent, three retries from a
    /// three-second base delay.
    pub fn new() -> (r: Self)
        ensures
            r.base_url@ == "https://export.arxiv.org/api/query"@,
            r.user_agent@ == "rust_scholar_transformer/0.1 (+https://github.com/arabangoo/rust_scholar_transformer)"@,
            r.max_retries == 3,
            r.retry_base_delay_nanos == 3_000_000_000,
    {
        ArxivSource {
            base_url: owned("https://export.arxiv.org/api/query"),
            user_agent: owned("rust_scholar_transformer/0.1 (+https://github.com/arabangoo/rust_scholar_transformer)"),
            max_retries: 3,
            retry_base_delay_nanos: 3_000_000_000,
        }
    }

    /// The same settings with another endpoint (a mock server in tests).
    pub fn with_base_url(self, base_url: String) -> (r: Self)
        ensures
            r.base_url@ == base_url@,
            r.user_agent@ == self.user_agent@,
            r.max_retries == self.max_retries,
            r.retry_base_delay_nanos == self.retry_base_delay_nanos,
    {
        ArxivSource { base_url, ..self }
    }

    /// The same settings with another retry count and base delay
    /// (nanoseconds, at most the longest `Duration`).
    pub fn with_retry(self, max_retries: u32, base_delay_nanos: u128) -> (r: Self)
        requires
            base_delay_nanos <= DURATION_MAX_NANOS,
        ensures
            r.base_url@ == self.base_url@,
            r.user_agent@ == self.user_agent@,
            r.max_retries == max_retries,
            r.retry_base_delay_nanos == base_delay_nanos,
    {
        ArxivSource { max_retries, retry_base_delay_nanos: base_delay_nanos, ..self }
    }

    /// The same settings with another User-Agent (arXiv asks for a contact
    /// in it).
    pub fn with_user_agent(self, user_agent: String) -> (r: Self)
        ensures
            r.base_url@ == self.base_url@,
            r.user_agent@ == user_agent@,
            r.max_retries == self.max_retries,
            r.retry_base_delay_nanos == self.retry_base_delay_nanos,
    {
        ArxivSource { user_agent, ..self }
    }

    /// The search request's query parameters: `search_query=all:<text>`,
    /// `start=0`, `max_results` (the limit, at least 1), newest submissions
    /// first. A blank query is refused with `InvalidQuery("empty query
    /// text")`.
    pub fn search_params(&self, query: &SearchQuery) -> (r: Result<Vec<(String, String)>, FetchError>)
        ensures
            match r {
                Ok(ps) => trim(query.text@).len() > 0 && pair_views(ps@) == seq![
                    ("search_query"@, "all:"@ + query.text@),
                    ("start"@, "0"@),
                    ("max_results"@, decimal(arxiv_max_results(query.limit))),
                    ("sortBy"@, "submittedDate"@),
                    ("sortOrder"@, "descending"@),
                ],
                Err(FetchError::InvalidQuery(m)) => trim(query.text@).len() == 0 && m@
                    == "empty query text"@,
                Err(_) => false,
            },
    {
        match check_query_text(query.text.as_str()) {
            Ok(()) => {},
            Err(e) => return Err(e),
        }
        let mut sq = chars_of("all:");
        append_chars(&mut sq, &chars_of(query.text.as_str()));
        let n: u64 = if query.limit < 1 {
            1
        } else {
            query.limit as u64
        };
        let mut ps: Vec<(String, String)> = Vec::new();
        push_param(&mut ps, "search_query", string_of(sq.as_slice()));
        push_param(&mut ps, "start", owned("0"));
        push_param(&mut ps, "max_results", string_of(decimal_chars(n).as_slice()));
        push_param(&mut ps, "sortBy", owned("submittedDate"));
        push_param(&mut ps, "sortOrder", owned("descending"));
        Ok(ps)
    }

    /// What to do with a response of the `attempt`-th try (see
    /// [`arxiv_response_step`]), with this source's retry settings.
    pub fn response_step(&self, status: u16, attempt: u32, retry_after_secs: Option<u64>) -> (r: FetchStep)
        requires
            self.retry_base_delay_nanos <= DURATION_MAX_NANOS,
        ensures
            is_arxiv_step(r, status, attempt, self.max_retries, retry_after_secs, self.retry_base_delay_nanos),
    {
        arxiv_response_step(status, attempt, self.max_retries, retry_after_secs, self.retry_base_delay_nanos)
    }

    /// Three seconds between requests, one connection.
    pub fn rate_policy(&self) -> (r: RatePolicy)
        ensures
            r.min_interval_ms == 3000,
            r.max_concurrency == 1,
            r.daily_quota is None,
    {
        arxiv_rate_policy()
    }
}

} // verus!
