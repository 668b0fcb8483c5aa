//! Typed errors and per-source partial-failure warnings, so that callers
//! can branch on the kind of failure.

use vstd::prelude::*;

use crate::external::{chars_of, string_of};
use crate::model::SourceKind;
use crate::text::append_chars;

verus! {

/// An error of a source adapter or of the fetch stage.
#[derive(Debug)]
pub enum FetchError {
    Http(String),
    Parse(String),
    RateLimit(String),
    InvalidQuery(String),
}

/// The display text of a fetch error: a fixed prefix per kind, then the detail.
pub open spec fn fetch_error_text(e: FetchError) -> Seq<char> {
    match e {
        FetchError::Http(m) => "http request failed: "@ + m@,
        FetchError::Parse(m) => "parse failed: "@ + m@,
        FetchError::RateLimit(m) => "rate limit exceeded: "@ + m@,
        FetchError::InvalidQuery(m) => "invalid query: "@ + m@,
    }
}

impl FetchError {
    /// The display text of the error (`http request failed: ...`,
    /// `parse failed: ...`, `rate limit exceeded: ...`, `invalid query: ...`).
    pub fn message(&self) -> (r: String)
        ensures
            r@ == fetch_error_text(*self),
    {
        let (mut out, detail) = match self {
            FetchError::Http(m) => (chars_of("http request failed: "), m),
            FetchError::Parse(m) => (chars_of("parse failed: "), m),
            FetchError::RateLimit(m) => (chars_of("rate limit exceeded: "), m),
            FetchError::InvalidQuery(m) => (chars_of("invalid query: "), m),
        };
        append_chars(&mut out, &chars_of(detail.as_str()));
        string_of(out.as_slice())
    }
}

/// The partial failure of one source, reported next to the results rather
/// than failing the whole search.
#[derive(Debug, Clone)]
pub struct ConnectorWarning {
    pub source: SourceKind,
    pub message: String,
}

impl ConnectorWarning {
    /// A warning for `source` with the given message.
    pub fn new(source: SourceKind, message: String) -> (r: Self)
        ensures
            r.source == source,
            r.message@ == message@,
    {
        ConnectorWarning { source, message }
    }

    /// The warning for a source that did not answer in time.
    pub fn timeout(source: SourceKind) -> (r: Self)
        ensures
            r.source == source,
            r.message@ == "source timed out"@,
    {
        ConnectorWarning { source, message: string_of(chars_of("source timed out").as_slice()) }
    }
}

} // verus!
