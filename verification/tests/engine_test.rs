use rust_scholar_transformer::engine::{
    cache_key, collect_outcomes, passes_date_filter, select_results, source_selected, SourceOutcome,
};
use rust_scholar_transformer::dedup::fuse_groups;
use rust_scholar_transformer::error::{ConnectorWarning, FetchError};
use rust_scholar_transformer::fusion::{authority_score, freshness_score};
use rust_scholar_transformer::model::{Recency, SearchQuery, SourceKind, Timestamp};
use rust_scholar_transformer::ratelimit::wait_before_next;
use rust_scholar_transformer::source::RatePolicy;
use rust_scholar_transformer::sources::arxiv::{entries_to_docs, AtomEntry};
use rust_scholar_transformer::cache::{entry_is_fresh, expiry_time};
use rust_scholar_transformer::sources::{check_query_text, limiter_interval, plan_sources};

const DAY: i64 = 86_400;

fn atom_entries() -> Vec<AtomEntry> {
    vec![
        AtomEntry {
            title: "Sample Title One".to_string(),
            id: "http://arxiv.org/abs/2301.00001v2".to_string(),
            published: Some("2023-01-01T00:00:00Z".to_string()),
            summary: Some("First summary.".to_string()),
            authors: vec!["Alice A".to_string(), "Bob B".to_string()],
        },
        AtomEntry {
            title: "Sample Title Two".to_string(),
            id: "http://arxiv.org/abs/2302.12345v1".to_string(),
            published: Some("2023-02-02T00:00:00Z".to_string()),
            summary: Some("Second summary.".to_string()),
            authors: vec!["Carol C".to_string()],
        },
    ]
}

#[test]
fn engine_recency_filter_drops_old_docs() {
    let now = Timestamp::now();
    let docs = entries_to_docs(atom_entries(), now);
    let mut q = SearchQuery::from_text("agentic".to_string(), 10);
    q.recency = Some(Recency::Day);
    assert_eq!(select_results(&docs, &q, now).len(), 0);
    let q2 = SearchQuery::from_text("agentic".to_string(), 10);
    assert_eq!(select_results(&docs, &q2, now), vec![0, 1]);
}

#[test]
fn date_filter_bounds_and_undated_documents() {
    let now = Timestamp { secs: 1_700_000_000, nanos: 0 };
    let mut docs = entries_to_docs(atom_entries(), now);
    docs[0].published_at = Some(Timestamp { secs: now.secs - 3 * DAY, nanos: 0 });
    docs[1].published_at = None;
    let mut q = SearchQuery::from_text("x".to_string(), 10);
    q.recency = Some(Recency::Day);
    assert!(!passes_date_filter(&docs[0], &q, now));
    assert!(passes_date_filter(&docs[1], &q, now));
    q.recency = Some(Recency::Week);
    assert!(passes_date_filter(&docs[0], &q, now));
    q.from_date = Some(Timestamp { secs: now.secs - 2 * DAY, nanos: 0 });
    assert!(!passes_date_filter(&docs[0], &q, now));
    q.from_date = None;
    q.to_date = Some(Timestamp { secs: now.secs - 4 * DAY, nanos: 0 });
    assert!(!passes_date_filter(&docs[0], &q, now));
    assert!(passes_date_filter(&docs[1], &q, now));
}

#[test]
fn selection_is_cut_to_the_limit() {
    let now = Timestamp::now();
    let docs = entries_to_docs(atom_entries(), now);
    let q = SearchQuery::from_text("x".to_string(), 1);
    assert_eq!(select_results(&docs, &q, now), vec![0]);
    let q0 = SearchQuery::from_text("x".to_string(), 0);
    assert!(select_results(&docs, &q0, now).is_empty());
}

#[test]
fn outcomes_split_into_results_and_warnings() {
    let outcomes = vec![
        (SourceKind::Arxiv, SourceOutcome::Found(1)),
        (SourceKind::Web, SourceOutcome::Failed(FetchError::Http("boom".to_string()))),
        (SourceKind::News, SourceOutcome::TimedOut),
        (SourceKind::Blog, SourceOutcome::Found(2)),
    ];
    let (found, warnings) = collect_outcomes(outcomes);
    assert_eq!(found, vec![1, 2]);
    assert_eq!(warnings.len(), 2);
    assert_eq!(warnings[0].source, SourceKind::Web);
    assert_eq!(warnings[0].message, "http request failed: boom");
    assert_eq!(warnings[1].source, SourceKind::News);
    assert_eq!(warnings[1].message, "source timed out");
}

#[test]
fn source_selection() {
    assert!(source_selected(&Vec::new(), SourceKind::Youtube));
    let only = vec![SourceKind::Arxiv, SourceKind::News];
    assert!(source_selected(&only, SourceKind::News));
    assert!(!source_selected(&only, SourceKind::Web));
}

#[test]
fn cache_key_normalizes_text_and_sorts_sources() {
    let q = SearchQuery::from_text("  Agentic RAG ".to_string(), 20)
        .with_sources(vec![SourceKind::News, SourceKind::Arxiv]);
    assert_eq!(cache_key(&q), "agentic rag|Arxiv,News|20|None|None|None");
    let q2 = SearchQuery::from_text("agentic rag".to_string(), 20)
        .with_sources(vec![SourceKind::Arxiv, SourceKind::News]);
    assert_eq!(cache_key(&q), cache_key(&q2));
    let q3 = SearchQuery::from_text("agentic rag".to_string(), 20).with_sources(vec![SourceKind::Arxiv]);
    assert_ne!(cache_key(&q), cache_key(&q3));
    let mut q4 = SearchQuery::from_text("x".to_string(), 5);
    q4.recency = Some(Recency::Week);
    q4.from_date = Some(Timestamp { secs: 1704067200, nanos: 0 });
    assert_eq!(cache_key(&q4), "x||5|Some(Week)|Some(2024-01-01T00:00:00Z)|None");
}

#[test]
fn freshness_tiers_and_authority() {
    let now = Timestamp { secs: 1_700_000_000, nanos: 0 };
    let ago = |days: i64| Some(Timestamp { secs: now.secs - days * DAY, nanos: 0 });
    assert_eq!(freshness_score(None, now), 0);
    assert_eq!(freshness_score(ago(0), now), 1000);
    assert_eq!(freshness_score(ago(-2), now), 1000);
    assert_eq!(freshness_score(ago(3), now), 800);
    assert_eq!(freshness_score(ago(7), now), 600);
    assert_eq!(freshness_score(ago(30), now), 300);
    assert_eq!(freshness_score(ago(31), now), 100);
    assert_eq!(authority_score(SourceKind::Arxiv), 900);
    assert_eq!(authority_score(SourceKind::Blog), 850);
    assert_eq!(authority_score(SourceKind::News), 800);
    assert_eq!(authority_score(SourceKind::Web), 550);
    assert_eq!(authority_score(SourceKind::Youtube), 450);
}

#[test]
fn spaces_out_requests() {
    let interval = 40_000_000u128; // 40 ms
    assert_eq!(wait_before_next(interval, None), 0);
    assert_eq!(wait_before_next(interval, Some(0)), interval);
    assert_eq!(wait_before_next(interval, Some(15_000_000)), 25_000_000);
    assert_eq!(wait_before_next(interval, Some(50_000_000)), 0);
}

#[test]
fn zero_interval_never_waits() {
    assert_eq!(wait_before_next(0, None), 0);
    assert_eq!(wait_before_next(0, Some(0)), 0);
    assert_eq!(wait_before_next(0, Some(20_000_000)), 0);
}

#[test]
fn errors_and_warnings_read_as_text() {
    assert_eq!(FetchError::Http("x".to_string()).message(), "http request failed: x");
    assert_eq!(FetchError::Parse("x".to_string()).message(), "parse failed: x");
    assert_eq!(FetchError::RateLimit("x".to_string()).message(), "rate limit exceeded: x");
    assert_eq!(FetchError::InvalidQuery("x".to_string()).message(), "invalid query: x");
    let w = ConnectorWarning::new(SourceKind::Web, "m".to_string());
    assert_eq!((w.source, w.message.as_str()), (SourceKind::Web, "m"));
    let t = ConnectorWarning::timeout(SourceKind::News);
    assert_eq!(t.message, "source timed out");
    match check_query_text(" \t") {
        Err(FetchError::InvalidQuery(m)) => assert_eq!(m, "empty query text"),
        _ => panic!("expected InvalidQuery"),
    }
    assert!(check_query_text("q").is_ok());
}

#[test]
fn default_rate_policy() {
    let p = RatePolicy::default();
    assert_eq!((p.min_interval_ms, p.max_concurrency, p.daily_quota), (0, 4, None));
}

#[test]
fn query_builders() {
    let q = SearchQuery::from_text("t".to_string(), 3);
    assert!(q.sources.is_empty() && q.recency.is_none() && !q.include_content);
    let q = q.with_sources(vec![SourceKind::Web]);
    assert_eq!(q.sources, vec![SourceKind::Web]);
    assert_eq!(q.limit, 3);
}

#[test]
fn cache_entries_expire_after_their_ttl() {
    let at = expiry_time(1_000, 60);
    assert_eq!(at, 1_060);
    assert!(entry_is_fresh(at, 1_000));
    assert!(entry_is_fresh(at, 1_060));
    assert!(!entry_is_fresh(at, 1_061));
}

#[test]
fn sources_planned_from_names() {
    assert_eq!(plan_sources(None, false, false, false), vec![SourceKind::Arxiv, SourceKind::News]);
    let names = vec!["blog", "youtube", "web", "news", "unknown", "arxiv"]
        .into_iter()
        .map(String::from)
        .collect();
    assert_eq!(
        plan_sources(Some(names), true, false, true),
        vec![SourceKind::Blog, SourceKind::Web, SourceKind::News, SourceKind::Arxiv]
    );
    let p = RatePolicy { min_interval_ms: 500, max_concurrency: 1, daily_quota: None };
    assert_eq!(limiter_interval(&p), Some(500));
    assert_eq!(limiter_interval(&RatePolicy::default()), None);
}

#[test]
fn engine_fanout_collects_and_fuses_with_rrf() {
    let now = Timestamp::now();
    let outcomes = vec![(SourceKind::Arxiv, SourceOutcome::Found(entries_to_docs(atom_entries(), now)))];
    let (per_source, warnings) = collect_outcomes(outcomes);
    assert!(warnings.is_empty());
    let fused = fuse_groups(per_source);
    assert_eq!(fused.len(), 2);
    // One source: fusion keeps its order, the first entry ranking first.
    assert_eq!(fused[0].doc.identity.arxiv_id.as_deref(), Some("2301.00001"));
    assert_eq!(fused[0].hits, vec![(0, 0)]);
    assert_eq!(fused[1].hits, vec![(0, 1)]);
}

#[test]
fn cache_key_tells_queries_apart_by_every_field() {
    let base = SearchQuery::from_text("Graph Neural Nets".to_string(), 10)
        .with_sources(vec![SourceKind::Web, SourceKind::Arxiv]);
    let same = SearchQuery::from_text("  graph neural NETS\t".to_string(), 10)
        .with_sources(vec![SourceKind::Arxiv, SourceKind::Web]);
    assert_eq!(cache_key(&base), "graph neural nets|Arxiv,Web|10|None|None|None");
    assert_eq!(cache_key(&base), cache_key(&same));
    let other_text = SearchQuery::from_text("graph neural net".to_string(), 10)
        .with_sources(vec![SourceKind::Arxiv, SourceKind::Web]);
    assert_ne!(cache_key(&base), cache_key(&other_text));
    let other_limit = SearchQuery::from_text("graph neural nets".to_string(), 11)
        .with_sources(vec![SourceKind::Arxiv, SourceKind::Web]);
    assert_ne!(cache_key(&base), cache_key(&other_limit));
    let mut other_to = same.clone();
    other_to.to_date = Some(Timestamp { secs: 1704067200, nanos: 500_000_000 });
    assert_eq!(
        cache_key(&other_to),
        "graph neural nets|Arxiv,Web|10|None|None|Some(2024-01-01T00:00:00.500Z)"
    );
    let mut other_to2 = same.clone();
    other_to2.to_date = Some(Timestamp { secs: 1704067200, nanos: 500_000 });
    assert_ne!(cache_key(&other_to), cache_key(&other_to2));
}
