use rust_scholar_transformer::dedup::{
    class_bases, dedup, fuse_groups, identity_key, merge_docs, minhash_sig, near_dedup,
    near_dup_classes, shingles, UnionFind,
};
use rust_scholar_transformer::model::{Author, DocIdentity, Document, SourceKind, Timestamp};

fn make_doc(arxiv: Option<&str>, url: Option<&str>, title_hash: u64, source: SourceKind) -> Document {
    Document {
        identity: DocIdentity {
            doi: None,
            arxiv_id: arxiv.map(|s| s.to_string()),
            canonical_url: url.map(|s| s.to_string()),
            title_hash,
        },
        source,
        title: "t".to_string(),
        url: url.unwrap_or("http://x").to_string(),
        authors: Vec::new(),
        published_at: None,
        fetched_at: Timestamp { secs: 1_700_000_000, nanos: 0 },
        summary: None,
        content: None,
        language: None,
        tags: Vec::new(),
        sources: vec![source],
        extra: Vec::new(),
    }
}

fn make_titled(title: &str, source: SourceKind) -> Document {
    let mut d = make_doc(None, Some(&format!("http://x/{}", title.replace(' ', "-"))), 0, source);
    d.title = title.to_string();
    d
}

#[test]
fn merges_same_arxiv_id_across_sources() {
    let docs = vec![
        make_doc(Some("2301.00001"), None, 1, SourceKind::Arxiv),
        make_doc(Some("2301.00001"), None, 1, SourceKind::Blog),
    ];
    let out = dedup(docs);
    assert_eq!(out.len(), 1);
    assert!(out[0].sources.contains(&SourceKind::Arxiv));
    assert!(out[0].sources.contains(&SourceKind::Blog));
}

#[test]
fn merges_same_canonical_url() {
    let docs = vec![
        make_doc(None, Some("https://e.com/a"), 1, SourceKind::News),
        make_doc(None, Some("https://e.com/a"), 2, SourceKind::Blog),
    ];
    assert_eq!(dedup(docs).len(), 1);
}

#[test]
fn keeps_distinct_documents() {
    let docs = vec![
        make_doc(Some("2301.00001"), None, 1, SourceKind::Arxiv),
        make_doc(Some("2302.99999"), None, 2, SourceKind::Arxiv),
    ];
    assert_eq!(dedup(docs).len(), 2);
}

// A similarity threshold of 0.5 over 64 signature slots is 32 agreeing slots.
#[test]
fn near_dedup_merges_similar_titles() {
    let docs = vec![
        make_titled("alpha beta gamma delta", SourceKind::Arxiv),
        make_titled("alpha beta gamma delta epsilon", SourceKind::Blog),
    ];
    let out = near_dedup(docs, 32);
    assert_eq!(out.len(), 1);
    assert!(out[0].sources.contains(&SourceKind::Arxiv));
    assert!(out[0].sources.contains(&SourceKind::Blog));
}

#[test]
fn near_dedup_keeps_unrelated_titles() {
    let docs = vec![
        make_titled("alpha beta gamma delta", SourceKind::Arxiv),
        make_titled("completely different words here", SourceKind::Blog),
    ];
    assert_eq!(near_dedup(docs, 32).len(), 2);
}

#[test]
fn rrf_boosts_multi_source_docs_and_merges() {
    let a = vec![make_doc(Some("1"), None, 0, SourceKind::Arxiv), make_doc(Some("2"), None, 0, SourceKind::Arxiv)];
    let b = vec![make_doc(Some("1"), None, 0, SourceKind::Blog), make_doc(Some("3"), None, 0, SourceKind::Blog)];
    let out = fuse_groups(vec![a, b]);
    // "1" appears in both lists: merged once, in first-appearance order,
    // with a rank position from each list.
    assert_eq!(out.len(), 3);
    assert_eq!(out[0].doc.identity.arxiv_id.as_deref(), Some("1"));
    assert!(out[0].doc.sources.contains(&SourceKind::Arxiv));
    assert!(out[0].doc.sources.contains(&SourceKind::Blog));
    assert_eq!(out[0].hits, vec![(0, 0), (1, 0)]);
    assert_eq!(out[1].hits, vec![(0, 1)]);
    assert_eq!(out[2].hits, vec![(1, 1)]);
    assert!(out[0].hits.len() > out[1].hits.len());
}

#[test]
fn identity_key_follows_priority() {
    let mut d = make_doc(Some("2301.00001"), Some("https://E.com/A"), 42, SourceKind::Arxiv);
    assert_eq!(identity_key(&d), "arxiv:2301.00001");
    d.identity.doi = Some("10.1000/ABC".to_string());
    assert_eq!(identity_key(&d), "doi:10.1000/abc");
    let u = make_doc(None, Some("https://E.com/A"), 42, SourceKind::Web);
    assert_eq!(identity_key(&u), "url:https://e.com/a");
    let t = make_doc(None, None, 42, SourceKind::Web);
    assert_eq!(identity_key(&t), "title:42");
}

#[test]
fn merge_fills_missing_fields_and_accumulates_sources() {
    let mut base = make_doc(Some("1"), None, 0, SourceKind::Arxiv);
    let mut other = make_doc(Some("1"), Some("https://e.com/x"), 0, SourceKind::Blog);
    other.summary = Some("s".to_string());
    other.published_at = Some(Timestamp { secs: 5, nanos: 0 });
    other.authors = vec![Author::new("A".to_string())];
    other.identity.doi = Some("10.1/x".to_string());
    other.title = "other".to_string();
    other.extra = vec![("k".to_string(), serde_json::Value::Bool(true))];
    base.extra = vec![("k".to_string(), serde_json::Value::Bool(false))];
    other.sources = vec![SourceKind::Blog, SourceKind::Arxiv, SourceKind::Blog];
    merge_docs(&mut base, other);
    assert_eq!(base.title, "t");
    assert_eq!(base.summary.as_deref(), Some("s"));
    assert_eq!(base.published_at, Some(Timestamp { secs: 5, nanos: 0 }));
    assert_eq!(base.authors.len(), 1);
    assert_eq!(base.identity.doi.as_deref(), Some("10.1/x"));
    assert_eq!(base.identity.canonical_url.as_deref(), Some("https://e.com/x"));
    assert_eq!(base.sources, vec![SourceKind::Arxiv, SourceKind::Blog]);
    assert_eq!(base.extra, vec![("k".to_string(), serde_json::Value::Bool(false))]);
}

#[test]
fn dedup_keeps_first_appearance_order() {
    let docs = vec![
        make_doc(Some("b"), None, 0, SourceKind::Arxiv),
        make_doc(Some("a"), None, 0, SourceKind::News),
        make_doc(Some("b"), None, 0, SourceKind::Web),
    ];
    let out = dedup(docs);
    assert_eq!(out.len(), 2);
    assert_eq!(out[0].identity.arxiv_id.as_deref(), Some("b"));
    assert_eq!(out[0].sources, vec![SourceKind::Arxiv, SourceKind::Web]);
    assert_eq!(out[1].identity.arxiv_id.as_deref(), Some("a"));
}

#[test]
fn union_find_joins_classes() {
    let mut uf = UnionFind::new(4);
    assert_ne!(uf.find(0), uf.find(1));
    uf.union(0, 1);
    assert_eq!(uf.find(0), uf.find(1));
    uf.union(2, 3);
    assert_ne!(uf.find(1), uf.find(2));
    uf.union(1, 3);
    assert_eq!(uf.find(0), uf.find(2));
    assert_eq!(uf.find(3), uf.find(0));
}

#[test]
fn near_dup_classes_and_bases() {
    let docs = vec![
        make_titled("alpha beta gamma delta", SourceKind::Arxiv),
        make_titled("completely different words here", SourceKind::Blog),
        make_titled("alpha beta gamma delta epsilon", SourceKind::News),
    ];
    let labels = near_dup_classes(&docs, 32);
    assert_eq!(labels.len(), 3);
    assert_eq!(labels[0], labels[2]);
    assert_ne!(labels[0], labels[1]);
    assert_eq!(class_bases(&labels), vec![0, 1]);
    let out = near_dedup(docs, 32);
    assert_eq!(out.len(), 2);
    assert_eq!(out[0].title, "alpha beta gamma delta");
    assert_eq!(out[0].sources, vec![SourceKind::Arxiv, SourceKind::News]);
    assert_eq!(out[1].title, "completely different words here");
}

#[test]
fn near_dedup_threshold_above_one_never_merges() {
    let docs = vec![
        make_titled("alpha beta gamma delta", SourceKind::Arxiv),
        make_titled("alpha beta gamma delta", SourceKind::Blog),
    ];
    assert_eq!(near_dedup(docs.clone(), 65).len(), 2);
    assert_eq!(near_dedup(docs, 64).len(), 1);
}

#[test]
fn shingles_and_signatures() {
    let mut d = make_titled("Alpha beta", SourceKind::Arxiv);
    d.summary = Some("gamma".to_string());
    let sh = shingles(&d);
    let words: Vec<String> = sh.iter().map(|w| w.iter().collect()).collect();
    assert_eq!(words, vec!["alpha beta".to_string(), "beta gamma".to_string()]);
    let single = make_titled("Word!", SourceKind::Web);
    let one: Vec<String> = shingles(&single).iter().map(|w| w.iter().collect()).collect();
    assert_eq!(one, vec!["word".to_string()]);
    let sig = minhash_sig(&d);
    assert_eq!(sig.len(), 64);
    assert_eq!(sig, minhash_sig(&d.clone()));
}

#[test]
fn fusion_merges_like_dedup_of_all_lists() {
    let a = vec![make_doc(Some("1"), None, 0, SourceKind::Arxiv), make_doc(Some("2"), None, 0, SourceKind::Arxiv)];
    let b = vec![make_doc(Some("3"), None, 0, SourceKind::Blog), make_doc(Some("1"), None, 0, SourceKind::Blog)];
    let mut all = a.clone();
    all.extend(b.clone());
    let fused = fuse_groups(vec![a, b]);
    let deduped = dedup(all);
    assert_eq!(fused.len(), deduped.len());
    for (f, d) in fused.iter().zip(deduped.iter()) {
        assert_eq!(f.doc.identity.arxiv_id, d.identity.arxiv_id);
        assert_eq!(f.doc.sources, d.sources);
    }
    let total: usize = fused.iter().map(|f| f.hits.len()).sum();
    assert_eq!(total, 4);
}

#[test]
fn stricter_thresholds_merge_less() {
    let docs = vec![
        make_titled("alpha beta gamma delta", SourceKind::Arxiv),
        make_titled("alpha beta gamma delta epsilon", SourceKind::Blog),
        make_titled("alpha beta gamma delta", SourceKind::News),
    ];
    let mut prev = 0;
    for m in [0u64, 16, 32, 48, 64, 65] {
        let n = near_dedup(docs.clone(), m).len();
        assert!(n >= prev);
        prev = n;
    }
    assert_eq!(near_dedup(docs.clone(), 65).len(), 3);
    assert_eq!(near_dedup(docs, 64).len(), 2);
}

#[test]
fn dedup_is_idempotent() {
    let mut with_doi = make_doc(Some("2401.1"), None, 3, SourceKind::Web);
    with_doi.identity.doi = Some("10.1/X".to_string());
    let mut doi_only = make_doc(None, Some("http://y"), 4, SourceKind::News);
    doi_only.identity.doi = Some("10.1/x".to_string());
    let docs = vec![
        make_doc(Some("2401.1"), None, 1, SourceKind::Arxiv),
        with_doi,
        doi_only,
        make_doc(None, Some("http://z"), 5, SourceKind::Blog),
        make_doc(None, None, 5, SourceKind::Youtube),
        make_doc(None, Some("http://z"), 6, SourceKind::Web),
    ];
    let once = dedup(docs);
    assert_eq!(once.len(), 4);
    let keys: Vec<String> = once.iter().map(identity_key).collect();
    assert_eq!(keys, vec!["arxiv:2401.1", "doi:10.1/x", "url:http://z", "title:5"]);
    assert_eq!(once[1].sources, vec![SourceKind::Web, SourceKind::News]);
    assert_eq!(once[2].sources, vec![SourceKind::Blog, SourceKind::Web]);
    let twice = dedup(once.clone());
    assert_eq!(twice.len(), once.len());
    for (a, b) in twice.iter().zip(once.iter()) {
        assert_eq!(identity_key(a), identity_key(b));
        assert_eq!(a.sources, b.sources);
        assert_eq!(a.identity.canonical_url, b.identity.canonical_url);
        assert_eq!(a.title, b.title);
    }
}

#[test]
fn union_find_find_returns_a_root() {
    let mut uf = UnionFind::new(5);
    uf.union(0, 1);
    uf.union(1, 2);
    uf.union(3, 4);
    let r = uf.find(0);
    assert_eq!(uf.find(r), r);
    assert_eq!(uf.find(2), r);
    let s = uf.find(4);
    assert_eq!(uf.find(s), s);
    assert_ne!(r, s);
}
