use rust_scholar_transformer::error::FetchError;
use rust_scholar_transformer::model::{Document, SearchQuery, SourceKind, Timestamp};
use rust_scholar_transformer::sources::arxiv_oai::{
    arxiv_id_from_url, local_name, oai_from_date, parse_oai, ArxivOaiSource,
};
use rust_scholar_transformer::sources::check_status;
use rust_scholar_transformer::sources::feed_common::{feed_to_docs, query_terms};
use rust_scholar_transformer::sources::news::GoogleNewsSource;
use rust_scholar_transformer::sources::rss::{combine_feed_results, rss_rate_policy};
use rust_scholar_transformer::sources::web::{brave_results_to_docs, web_rate_policy, BraveProvider, BraveResult};
use rust_scholar_transformer::sources::youtube::{yt_items_to_docs, YoutubeSource, YtItem};

const OAI_ONE: &str = r#"<?xml version="1.0"?>
<OAI-PMH xmlns="http://www.openarchives.org/OAI/2.0/">
 <ListRecords>
  <record>
   <header><identifier>oai:arXiv.org:2401.00001</identifier><datestamp>2024-01-02</datestamp></header>
   <metadata>
    <oai_dc:dc xmlns:oai_dc="http://www.openarchives.org/OAI/2.0/oai_dc/" xmlns:dc="http://purl.org/dc/elements/1.1/">
     <dc:title>Agentic retrieval methods</dc:title>
     <dc:creator>Doe, Jane</dc:creator>
     <dc:creator>Roe, Richard</dc:creator>
     <dc:description>We study agentic retrieval.</dc:description>
     <dc:date>2024-01-01</dc:date>
     <dc:identifier>http://arxiv.org/abs/2401.00001v1</dc:identifier>
    </oai_dc:dc>
   </metadata>
  </record>
 </ListRecords>
</OAI-PMH>"#;

const OAI_TWO: &str = r#"<?xml version="1.0"?>
<OAI-PMH xmlns="http://www.openarchives.org/OAI/2.0/">
 <ListRecords>
  <record>
   <header><identifier>oai:arXiv.org:2401.00001</identifier><datestamp>2024-01-02</datestamp></header>
   <metadata>
    <oai_dc:dc xmlns:oai_dc="http://www.openarchives.org/OAI/2.0/oai_dc/" xmlns:dc="http://purl.org/dc/elements/1.1/">
     <dc:title>Agentic retrieval methods</dc:title>
     <dc:creator>Doe, Jane</dc:creator>
     <dc:description>We study agentic retrieval.</dc:description>
     <dc:date>2024-01-01</dc:date>
     <dc:identifier>http://arxiv.org/abs/2401.00001v1</dc:identifier>
    </oai_dc:dc>
   </metadata>
  </record>
  <record>
   <header><identifier>oai:arXiv.org:2401.00002</identifier><datestamp>2024-01-03</datestamp></header>
   <metadata>
    <oai_dc:dc xmlns:oai_dc="http://www.openarchives.org/OAI/2.0/oai_dc/" xmlns:dc="http://purl.org/dc/elements/1.1/">
     <dc:title>Cooking recipes dataset</dc:title>
     <dc:creator>Smith, Sam</dc:creator>
     <dc:description>A dataset of recipes.</dc:description>
     <dc:date>2024-01-01</dc:date>
     <dc:identifier>http://arxiv.org/abs/2401.00002v1</dc:identifier>
    </oai_dc:dc>
   </metadata>
  </record>
 </ListRecords>
</OAI-PMH>"#;

const RSS: &str = r#"<?xml version="1.0" encoding="UTF-8"?>
<rss version="2.0">
  <channel>
    <title>Test Feed</title>
    <item>
      <title>Agentic AI breakthrough</title>
      <link>https://blog.example.com/agentic?utm_source=rss</link>
      <pubDate>Wed, 01 Jan 2025 00:00:00 GMT</pubDate>
      <description>A post about agentic systems and loops.</description>
    </item>
    <item>
      <title>Unrelated cooking post</title>
      <link>https://blog.example.com/cooking</link>
      <pubDate>Tue, 31 Dec 2024 00:00:00 GMT</pubDate>
      <description>Recipes and food.</description>
    </item>
  </channel>
</rss>"#;

#[test]
fn parses_oai_dc_records() {
    let records = parse_oai(OAI_ONE).unwrap();
    assert_eq!(records.len(), 1);
    let r = &records[0];
    assert_eq!(r.title, "Agentic retrieval methods");
    assert_eq!(r.creators.len(), 2);
    assert_eq!(r.identifier, "http://arxiv.org/abs/2401.00001v1");
    assert_eq!(arxiv_id_from_url(&r.identifier).as_deref(), Some("2401.00001"));
}

#[test]
fn parse_oai_reports_malformed_xml() {
    match parse_oai("<a><b></a>") {
        Err(FetchError::Parse(m)) => assert!(!m.is_empty()),
        other => panic!("expected a parse error, got {:?}", other.map(|v| v.len())),
    }
    assert_eq!(parse_oai("<OAI-PMH></OAI-PMH>").unwrap().len(), 0);
}

#[test]
fn local_names_drop_prefixes() {
    assert_eq!(local_name(b"dc:title"), "title");
    assert_eq!(local_name(b"record"), "record");
    assert_eq!(local_name(b"a:b:c"), "c");
}

#[test]
fn arxiv_oai_harvests_and_filters() {
    let src = ArxivOaiSource::new();
    let docs = src.docs_from_body(OAI_TWO, "agentic").unwrap();
    assert_eq!(docs.len(), 1);
    assert_eq!(docs[0].source, SourceKind::Arxiv);
    assert_eq!(docs[0].identity.arxiv_id.as_deref(), Some("2401.00001"));
    assert_eq!(docs[0].authors.len(), 1);
    assert!(docs[0].published_at.is_some());
    // An empty query keeps every record.
    assert_eq!(src.docs_from_body(OAI_TWO, "").unwrap().len(), 2);
}

#[test]
fn oai_harvest_parameters() {
    let now = Timestamp { secs: 1704067200, nanos: 0 }; // 2024-01-01
    assert_eq!(oai_from_date(now, 7).as_deref(), Some("2023-12-25"));
    assert_eq!(oai_from_date(now, -3).as_deref(), Some("2024-01-01"));
    let src = ArxivOaiSource::new().with_set("cs".to_string()).with_from_days(1);
    let ps = src.harvest_params(now).unwrap();
    let expect: Vec<(String, String)> = [
        ("verb", "ListRecords"),
        ("metadataPrefix", "oai_dc"),
        ("from", "2023-12-31"),
        ("set", "cs"),
    ]
    .iter()
    .map(|(k, v)| (k.to_string(), v.to_string()))
    .collect();
    assert_eq!(ps, expect);
    let p = src.rate_policy();
    assert_eq!((p.min_interval_ms, p.max_concurrency, p.daily_quota), (500, 1, None));
}

fn yt_items() -> Vec<YtItem> {
    vec![
        YtItem {
            video_id: "abc123".to_string(),
            title: "Agentic AI explained".to_string(),
            description: "A talk.".to_string(),
            channel_title: "AI Channel".to_string(),
            published_at: "2024-01-01T00:00:00Z".to_string(),
        },
        YtItem {
            video_id: "def456".to_string(),
            title: "Another video".to_string(),
            description: "".to_string(),
            channel_title: "Chan".to_string(),
            published_at: "2024-02-01T00:00:00Z".to_string(),
        },
    ]
}

#[test]
fn youtube_parses_metadata() {
    let docs = yt_items_to_docs(yt_items(), Timestamp::now());
    assert_eq!(docs.len(), 2);
    assert_eq!(docs[0].source, SourceKind::Youtube);
    assert_eq!(docs[0].url, "https://www.youtube.com/watch?v=abc123");
    assert_eq!(docs[0].authors[0].name, "AI Channel");
    assert_eq!(docs[0].summary.as_deref(), Some("A talk."));
    assert_eq!(docs[1].summary, None);
}

#[test]
fn youtube_skips_items_without_video_and_blank_channels() {
    let mut items = yt_items();
    items[1].video_id = String::new();
    items[0].channel_title = "  ".to_string();
    let docs = yt_items_to_docs(items, Timestamp::now());
    assert_eq!(docs.len(), 1);
    assert!(docs[0].authors.is_empty());
}

#[test]
fn youtube_requires_api_key() {
    let src = YoutubeSource::new(String::new());
    match src.search_params(&SearchQuery::from_text("x".to_string(), 5)) {
        Err(FetchError::InvalidQuery(m)) => assert_eq!(m, "youtube api key not set"),
        _ => panic!("expected InvalidQuery"),
    }
    match src.search_params(&SearchQuery::from_text(" ".to_string(), 5)) {
        Err(FetchError::InvalidQuery(m)) => assert_eq!(m, "empty query text"),
        _ => panic!("expected InvalidQuery"),
    }
}

#[test]
fn youtube_search_parameters() {
    let src = YoutubeSource::new("test-key".to_string());
    let ps = src.search_params(&SearchQuery::from_text("agentic".to_string(), 100)).unwrap();
    let expect: Vec<(String, String)> = [
        ("part", "snippet"),
        ("type", "video"),
        ("q", "agentic"),
        ("maxResults", "50"),
        ("key", "test-key"),
    ]
    .iter()
    .map(|(k, v)| (k.to_string(), v.to_string()))
    .collect();
    assert_eq!(ps, expect);
    assert_eq!(src.rate_policy().daily_quota, Some(100));
}

fn brave_results() -> Vec<BraveResult> {
    vec![
        BraveResult {
            title: "Agentic loops guide".to_string(),
            url: "https://example.com/guide?utm_source=brave".to_string(),
            description: "<b>Guide</b>".to_string(),
            page_age: Some("2024-01-01T00:00:00Z".to_string()),
        },
        BraveResult {
            title: "Second result".to_string(),
            url: "https://example.com/second".to_string(),
            description: "More".to_string(),
            page_age: None,
        },
    ]
}

#[test]
fn web_brave_provider_parses_results() {
    let docs = brave_results_to_docs(brave_results(), Timestamp::now());
    assert_eq!(docs.len(), 2);
    assert_eq!(docs[0].source, SourceKind::Web);
    assert_eq!(docs[0].identity.canonical_url.as_deref(), Some("https://example.com/guide"));
    assert_eq!(docs[0].summary.as_deref(), Some("Guide"));
}

#[test]
fn brave_skips_results_without_url() {
    let mut rs = brave_results();
    rs[0].url = String::new();
    let docs = brave_results_to_docs(rs, Timestamp::now());
    assert_eq!(docs.len(), 1);
    assert_eq!(docs[0].title, "Second result");
    assert!(docs[0].published_at.is_none());
}

#[test]
fn brave_parameters_and_key() {
    let p = BraveProvider::new("k".to_string());
    let ps = p.search_params(&SearchQuery::from_text("agentic loops".to_string(), 0)).unwrap();
    assert_eq!(ps[1], ("count".to_string(), "1".to_string()));
    let ps = p.search_params(&SearchQuery::from_text("x".to_string(), 99)).unwrap();
    assert_eq!(ps[1], ("count".to_string(), "20".to_string()));
    match BraveProvider::new(" ".to_string()).search_params(&SearchQuery::from_text("x".to_string(), 5)) {
        Err(FetchError::InvalidQuery(m)) => assert_eq!(m, "brave api key not set"),
        _ => panic!("expected InvalidQuery"),
    }
    assert_eq!(p.name(), "brave");
    assert_eq!(web_rate_policy().max_concurrency, 2);
}

#[test]
fn rss_blog_parses_filters_and_canonicalizes() {
    let docs = feed_to_docs(RSS.as_bytes(), SourceKind::Blog, None, Some("agentic")).unwrap();
    assert_eq!(docs.len(), 1);
    assert_eq!(docs[0].source, SourceKind::Blog);
    assert_eq!(docs[0].title, "Agentic AI breakthrough");
    assert_eq!(docs[0].identity.canonical_url.as_deref(), Some("https://blog.example.com/agentic"));
    assert!(docs[0].published_at.is_some());
}

#[test]
fn google_news_search_returns_all_items_unfiltered() {
    let src = GoogleNewsSource::new();
    let docs = src.docs_from_body(RSS.as_bytes()).unwrap();
    assert_eq!(docs.len(), 2);
    assert_eq!(docs[0].source, SourceKind::News);
    assert_eq!(docs[0].language.as_deref(), Some("en"));
}

#[test]
fn google_news_parameters_and_locale() {
    let src = GoogleNewsSource::new().with_locale(
        "ko".to_string(),
        "KR".to_string(),
        "KR:ko".to_string(),
        "ko".to_string(),
    );
    let ps = src.search_params(&SearchQuery::from_text("rust".to_string(), 5)).unwrap();
    let expect: Vec<(String, String)> = [("q", "rust"), ("hl", "ko"), ("gl", "KR"), ("ceid", "KR:ko")]
        .iter()
        .map(|(k, v)| (k.to_string(), v.to_string()))
        .collect();
    assert_eq!(ps, expect);
    assert!(src.search_params(&SearchQuery::from_text("".to_string(), 5)).is_err());
}

#[test]
fn feeds_that_do_not_parse_are_parse_errors() {
    match feed_to_docs(b"definitely not a feed", SourceKind::Blog, None, None) {
        Err(FetchError::Parse(_)) => {}
        _ => panic!("expected a parse error"),
    }
}

#[test]
fn query_terms_are_lowercased_words() {
    let t = query_terms("  Agentic  LOOPS ");
    let words: Vec<String> = t.iter().map(|w| w.iter().collect()).collect();
    assert_eq!(words, vec!["agentic".to_string(), "loops".to_string()]);
}

fn doc_from(url: &str) -> Document {
    brave_results_to_docs(
        vec![BraveResult {
            title: "t".to_string(),
            url: url.to_string(),
            description: String::new(),
            page_age: None,
        }],
        Timestamp::now(),
    )
    .remove(0)
}

#[test]
fn rss_feed_results_combine() {
    let ok = combine_feed_results(vec![
        Ok(vec![doc_from("https://a.com/1")]),
        Err(FetchError::Http("x".to_string())),
        Ok(vec![doc_from("https://a.com/2"), doc_from("https://a.com/3")]),
    ])
    .unwrap();
    assert_eq!(ok.len(), 3);
    assert_eq!(ok[2].url, "https://a.com/3");
    // A feed that answers without items is a success beside failing ones.
    let empty = combine_feed_results(vec![
        Err(FetchError::Http("x".to_string())),
        Ok(Vec::<Document>::new()),
        Err(FetchError::Parse("y".to_string())),
    ])
    .unwrap();
    assert!(empty.is_empty());
    match combine_feed_results::<Document>(vec![
        Err(FetchError::Http("x".to_string())),
        Err(FetchError::Parse("y".to_string())),
    ]) {
        Err(FetchError::Http(m)) => assert_eq!(m, "all 2 RSS feeds failed"),
        _ => panic!("expected every feed to have failed"),
    }
    assert_eq!(combine_feed_results::<Document>(Vec::new()).unwrap().len(), 0);
    assert_eq!(rss_rate_policy(0).max_concurrency, 1);
    assert_eq!(rss_rate_policy(3).max_concurrency, 3);
}

#[test]
fn status_checks() {
    assert!(check_status("Brave", 200).is_ok());
    assert!(check_status("Brave", 299).is_ok());
    match check_status("YouTube", 403) {
        Err(FetchError::Http(m)) => assert_eq!(m, "YouTube HTTP 403"),
        _ => panic!("expected an HTTP error"),
    }
}

#[test]
fn oai_text_and_cdata_are_read() {
    let xml = "<r><record><dc:title><![CDATA[A <b> & c]]></dc:title><dc:description>x &amp; y</dc:description>\
               <identifier>oai:1</identifier><dc:identifier>http://arxiv.org/abs/1</dc:identifier>\
               <dc:creator> </dc:creator></record></r>";
    let records = parse_oai(xml).unwrap();
    assert_eq!(records.len(), 1);
    assert_eq!(records[0].title, "A <b> & c");
    assert_eq!(records[0].description, "x & y");
    assert_eq!(records[0].identifier, "http://arxiv.org/abs/1");
    assert!(records[0].creators.is_empty());
}
