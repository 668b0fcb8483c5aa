use rust_scholar_transformer::error::FetchError;
use rust_scholar_transformer::model::{SearchQuery, SourceKind};
use rust_scholar_transformer::sources::arxiv::{
    arxiv_id_from_id_url, arxiv_rate_policy, arxiv_response_step, backoff, entries_to_docs,
    parse_retry_after, ArxivSource, AtomEntry, FetchStep,
};
use rust_scholar_transformer::model::Timestamp;

fn sample_entry() -> AtomEntry {
    AtomEntry {
        title: "Sample One".to_string(),
        id: "http://arxiv.org/abs/2301.00001v2".to_string(),
        published: Some("2023-01-01T00:00:00Z".to_string()),
        summary: Some("S1.".to_string()),
        authors: vec!["Alice".to_string(), "Bob".to_string()],
    }
}

#[test]
fn normalizes_arxiv_id_versions() {
    assert_eq!(
        arxiv_id_from_id_url("http://arxiv.org/abs/2301.00001v2").as_deref(),
        Some("2301.00001")
    );
    assert_eq!(
        arxiv_id_from_id_url("http://arxiv.org/abs/2302.12345").as_deref(),
        Some("2302.12345")
    );
    assert_eq!(
        arxiv_id_from_id_url("http://arxiv.org/abs/math.GT/0309136v1").as_deref(),
        Some("math.GT/0309136")
    );
    assert_eq!(arxiv_id_from_id_url("https://example.com/x").as_deref(), None);
}

// The entry below is what the Atom feed of the original test holds.
#[test]
fn parses_atom_into_documents() {
    let docs = entries_to_docs(vec![sample_entry()], Timestamp::now());
    assert_eq!(docs.len(), 1);
    assert_eq!(docs[0].title, "Sample One");
    assert_eq!(docs[0].identity.arxiv_id.as_deref(), Some("2301.00001"));
    assert_eq!(docs[0].authors.len(), 2);
    assert!(docs[0].published_at.is_some());
}

#[test]
fn atom_entries_normalize_fields() {
    let mut e = sample_entry();
    e.title = "  Sample \n Title  ".to_string();
    e.summary = Some(" a\tb ".to_string());
    e.authors = vec!["  ".to_string(), " Carol  C ".to_string()];
    e.published = Some("not a date".to_string());
    let now = Timestamp::now();
    let docs = entries_to_docs(vec![e, sample_entry()], now);
    assert_eq!(docs.len(), 2);
    let d = &docs[0];
    assert_eq!(d.title, "Sample Title");
    assert_eq!(d.summary.as_deref(), Some("a b"));
    assert_eq!(d.authors.len(), 1);
    assert_eq!(d.authors[0].name, "Carol C");
    assert!(d.published_at.is_none());
    assert_eq!(d.source, SourceKind::Arxiv);
    assert_eq!(d.sources, vec![SourceKind::Arxiv]);
    assert_eq!(d.language.as_deref(), Some("en"));
    assert_eq!(d.fetched_at, now);
    assert_eq!(d.identity.canonical_url.as_deref(), Some("http://arxiv.org/abs/2301.00001v2"));
}

#[test]
fn backoff_doubles_up_to_thirty_seconds() {
    let s = 1_000_000_000u128;
    assert_eq!(backoff(3 * s, 0), 3 * s);
    assert_eq!(backoff(3 * s, 1), 6 * s);
    assert_eq!(backoff(3 * s, 3), 24 * s);
    assert_eq!(backoff(3 * s, 4), 30 * s);
    assert_eq!(backoff(s / 2, 9), 16 * s);
    assert_eq!(backoff(0, 2), 0);
}

#[test]
fn retry_after_seconds_parse() {
    assert_eq!(parse_retry_after("5"), Some(5));
    assert_eq!(parse_retry_after(" 120 "), Some(120));
    assert_eq!(parse_retry_after("+7"), Some(7));
    assert_eq!(parse_retry_after("Wed, 21 Oct 2015 07:28:00 GMT"), None);
    assert_eq!(parse_retry_after(""), None);
    assert_eq!(parse_retry_after("18446744073709551615"), Some(u64::MAX));
    assert_eq!(parse_retry_after("18446744073709551616"), None);
}

#[test]
fn arxiv_gives_up_after_persistent_429() {
    let src = ArxivSource::new().with_retry(2, 0);
    for attempt in 0..2 {
        match src.response_step(429, attempt, None) {
            FetchStep::Retry(w) => assert_eq!(w, 0),
            _ => panic!("expected a retry"),
        }
    }
    match src.response_step(429, 2, None) {
        FetchStep::Fail(FetchError::Http(m)) => assert!(m.contains("429"), "expected 429 in: {m}"),
        FetchStep::Fail(other) => panic!("unexpected error: {other:?}"),
        _ => panic!("expected the request to fail"),
    }
}

#[test]
fn response_steps() {
    assert!(matches!(arxiv_response_step(200, 0, 3, None, 0), FetchStep::ReadBody));
    assert!(matches!(arxiv_response_step(429, 0, 3, Some(2), 0), FetchStep::Retry(2_000_000_000)));
    assert!(matches!(
        arxiv_response_step(429, 2, 3, None, 3_000_000_000),
        FetchStep::Retry(12_000_000_000)
    ));
    match arxiv_response_step(503, 0, 3, None, 0) {
        FetchStep::Fail(FetchError::Http(m)) => assert_eq!(m, "arXiv HTTP 503"),
        _ => panic!("expected an HTTP error"),
    }
}

#[test]
fn arxiv_source_settings_and_params() {
    let src = ArxivSource::new();
    assert_eq!(src.base_url, "https://export.arxiv.org/api/query");
    assert_eq!(src.max_retries, 3);
    assert_eq!(src.retry_base_delay_nanos, 3_000_000_000);
    let src = src.with_base_url("http://127.0.0.1/api/query".to_string()).with_user_agent("me".to_string());
    assert_eq!(src.base_url, "http://127.0.0.1/api/query");
    assert_eq!(src.user_agent, "me");
    let ps = src.search_params(&SearchQuery::from_text("multi agent rag".to_string(), 0)).unwrap();
    let expect: Vec<(String, String)> = [
        ("search_query", "all:multi agent rag"),
        ("start", "0"),
        ("max_results", "1"),
        ("sortBy", "submittedDate"),
        ("sortOrder", "descending"),
    ]
    .iter()
    .map(|(k, v)| (k.to_string(), v.to_string()))
    .collect();
    assert_eq!(ps, expect);
    match src.search_params(&SearchQuery::from_text("  ".to_string(), 5)) {
        Err(FetchError::InvalidQuery(m)) => assert_eq!(m, "empty query text"),
        _ => panic!("expected InvalidQuery"),
    }
    let p = arxiv_rate_policy();
    assert_eq!((p.min_interval_ms, p.max_concurrency, p.daily_quota), (3000, 1, None));
}

// The two entries below are those of the Atom response the original test serves.
#[test]
fn arxiv_search_parses_and_normalizes() {
    let entries = vec![
        AtomEntry {
            title: "Sample Title One".to_string(),
            id: "http://arxiv.org/abs/2301.00001v2".to_string(),
            published: Some("2023-01-01T00:00:00Z".to_string()),
            summary: Some("First summary.".to_string()),
            authors: vec!["Alice A".to_string(), "Bob B".to_string()],
        },
        AtomEntry {
            title: "Sample Title Two".to_string(),
            id: "http://arxiv.org/abs/2302.12345v1".to_string(),
            published: Some("2023-02-02T00:00:00Z".to_string()),
            summary: Some("Second summary.".to_string()),
            authors: vec!["Carol C".to_string()],
        },
    ];
    let src = ArxivSource::new();
    assert!(src.search_params(&SearchQuery::from_text("multi agent rag".to_string(), 10)).is_ok());
    let docs = entries_to_docs(entries, Timestamp::now());
    assert_eq!(docs.len(), 2);
    let d0 = &docs[0];
    assert_eq!(d0.source, SourceKind::Arxiv);
    assert_eq!(d0.title, "Sample Title One");
    assert_eq!(d0.identity.arxiv_id.as_deref(), Some("2301.00001"));
    assert_eq!(d0.authors.len(), 2);
    assert!(d0.published_at.is_some());
    assert_eq!(d0.language.as_deref(), Some("en"));
}
