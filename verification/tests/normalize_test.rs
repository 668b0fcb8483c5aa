use rust_scholar_transformer::normalize::{
    alnum_lowercase, canonicalize_url, fnv1a_64, normalize_title, parse_datetime, strip_html,
    strip_tracking_pairs, title_hash, tracking_key,
};

#[test]
fn strips_tracking_params() {
    let got = canonicalize_url("https://example.com/post?id=7&utm_source=x&gclid=abc").unwrap();
    assert_eq!(got, "https://example.com/post?id=7");
}

#[test]
fn drops_trailing_slash_and_empty_query() {
    let got = canonicalize_url("https://example.com/post/?utm_medium=y").unwrap();
    assert_eq!(got, "https://example.com/post");
}

#[test]
fn title_hash_is_deterministic_and_normalizing() {
    assert_eq!(title_hash("Multi-Agent RAG!"), title_hash("multi agent rag"));
    assert_ne!(title_hash("attention is all you need"), title_hash("deep residual learning"));
}

#[test]
fn normalize_title_collapses_whitespace() {
    assert_eq!(normalize_title("  a\n  b   c "), "a b c");
}

#[test]
fn strip_html_removes_tags_and_decodes_entities() {
    assert_eq!(strip_html("<p>Hello &amp; <b>world</b></p>"), "Hello & world");
}

#[test]
fn canonicalize_keeps_plain_urls_and_rejects_garbage() {
    assert_eq!(canonicalize_url("https://example.com/a").as_deref(), Some("https://example.com/a"));
    assert_eq!(canonicalize_url("not a url"), None);
    assert_eq!(
        canonicalize_url("https://e.com/p?a=1&fbclid=z&utm_campaign=c&b=2").as_deref(),
        Some("https://e.com/p?a=1&b=2")
    );
}

#[test]
fn tracking_keys_are_recognized() {
    for k in ["utm_source", "utm_medium", "utm_campaign", "utm_term", "utm_content", "fbclid", "gclid"] {
        assert!(tracking_key(&k.to_string()));
    }
    assert!(!tracking_key(&"id".to_string()));
    assert!(!tracking_key(&"utm".to_string()));
    let pairs = vec![
        ("id".to_string(), "7".to_string()),
        ("utm_source".to_string(), "x".to_string()),
        ("q".to_string(), "z".to_string()),
    ];
    assert_eq!(
        strip_tracking_pairs(&pairs),
        vec![("id".to_string(), "7".to_string()), ("q".to_string(), "z".to_string())]
    );
}

#[test]
fn fnv1a_matches_reference_values() {
    assert_eq!(fnv1a_64(b""), 0xcbf29ce484222325);
    assert_eq!(fnv1a_64(b"a"), 0xaf63dc4c8601ec8c);
    assert_eq!(fnv1a_64(b"foobar"), 0x85944171f73967e8);
}

#[test]
fn title_hash_hashes_lowercased_alphanumerics() {
    assert_eq!(title_hash("Multi-Agent RAG!"), fnv1a_64(b"multiagentrag"));
    assert_eq!(title_hash(""), fnv1a_64(b""));
    let cs: Vec<char> = "A-b C!".chars().collect();
    assert_eq!(alnum_lowercase(&cs), vec!['a', 'b', 'c']);
}

#[test]
fn normalized_titles_are_stable() {
    let once = normalize_title("\t Deep   residual\nlearning ");
    assert_eq!(once, "Deep residual learning");
    assert_eq!(normalize_title(&once), once);
    assert_eq!(normalize_title("   "), "");
}

#[test]
fn strip_html_decodes_all_common_entities() {
    assert_eq!(strip_html("a &lt;b&gt; &quot;c&quot; &#39;d&#39;&nbsp;e"), "a <b> \"c\" 'd' e");
    assert_eq!(strip_html("<div>\n  x <br/> y </div>"), "x y");
    assert_eq!(strip_html("&amp;lt;"), "<");
}

#[test]
fn parse_datetime_accepts_rfc3339_and_bare_dates() {
    let t = parse_datetime("2024-01-01T00:00:00Z").unwrap();
    assert_eq!((t.secs, t.nanos), (1704067200, 0));
    let d = parse_datetime(" 2024-01-01 ").unwrap();
    assert_eq!(d.secs, 1704067200);
    let off = parse_datetime("2024-01-01T09:00:00+09:00").unwrap();
    assert_eq!(off.secs, 1704067200);
    assert!(parse_datetime("yesterday").is_none());
}

#[test]
fn stripped_markup_leaves_no_tag_opener() {
    assert_eq!(strip_html("a<b>c</b><i"), "ac");
    assert_eq!(strip_html("x > y"), "x y");
}

#[test]
fn title_hash_ignores_unicode_whitespace() {
    let t = "Deep\u{00A0}Learning\u{3000}for\n  Graphs\u{2003}";
    assert_eq!(normalize_title(t), "Deep Learning for Graphs");
    assert_eq!(title_hash(&normalize_title(t)), title_hash(t));
    assert_eq!(title_hash(t), title_hash("deep learning for graphs"));
    assert_eq!(title_hash(t), title_hash("DeepLearningForGraphs"));
}
