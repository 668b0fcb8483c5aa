//! Shared feed handling: keyword filtering of items and the normalization
//! of RSS/Atom/JSON Feed entries (parsed by feed-rs) into documents.

use vstd::prelude::*;

use crate::error::FetchError;
use crate::external::{
    chars_of, feed_entry_models, feed_parse_error, lowercase_str, parse_feed_entries, str_lowercase,
    string_of,
};
use crate::model::{
    author_views, doc_views, opt_view, AuthorView, DocView, Document, IdentityView, SourceKind,
    Timestamp, Author, DocIdentity,
};
use crate::normalize::{
    canonical_url_of, canonicalize_url, normalize_title, strip_html, strip_html_spec,
    title_hash, title_hash_spec,
};
use crate::text::{
    append_chars, char_seqs, collapse_ws, contains_chars, occurs_in, split_whitespace, trim,
    trim_chars, words,
};

verus! {

/// Lowercased search terms: the words of the text, each lowercased.
pub open spec fn terms_of(text: Seq<char>) -> Seq<Seq<char>> {
    words(text).map_values(|w: Seq<char>| str_lowercase(w))
}

/// The lowercased haystack searched for terms: title, a space, and the
/// summary (empty when absent).
pub open spec fn haystack(title: Seq<char>, summary: Option<Seq<char>>) -> Seq<char> {
    str_lowercase(
        title + " "@ + match summary {
            Some(s) => s,
            None => seq![],
        },
    )
}

/// Whether an item passes the keyword filter: there are no terms, or some
/// term occurs in the item's haystack.
pub open spec fn keyword_match(terms: Seq<Seq<char>>, title: Seq<char>, summary: Option<Seq<char>>) -> bool {
    terms.len() == 0 || exists|j: int| 0 <= j < terms.len() && occurs_in(#[trigger] terms[j], haystack(title, summary))
}

/// The query's words, each lowercased.
pub fn query_terms(text: &str) -> (r: Vec<Vec<char>>)
    ensures
        char_seqs(r@) == terms_of(text@),
{
    let ws = split_whitespace(&chars_of(text));
    let ghost wv = char_seqs(ws@);
    let mut r: Vec<Vec<char>> = Vec::new();
    let mut i: usize = 0;
    while i < ws.len()
        invariant
            i <= ws@.len(),
            wv == char_seqs(ws@),
            wv == words(text@),
            char_seqs(r@) == wv.take(i as int).map_values(|w: Seq<char>| str_lowercase(w)),
        decreases ws@.len() - i,
    {
        let w = string_of(ws[i].as_slice());
        let low = chars_of(lowercase_str(w.as_str()).as_str());
        let ghost before = char_seqs(r@);
        r.push(low);
        assert(char_seqs(r@) =~= before.push(low@));
        i += 1;
        assert(char_seqs(r@) =~= wv.take(i as int).map_values(|w: Seq<char>| str_lowercase(w)));
    }
    assert(wv.take(i as int) =~= wv);
    r
}

/// The keyword filter: true when there are no terms or some term occurs in
/// the lowercased `title summary` text.
pub fn matches_terms(terms: &Vec<Vec<char>>, title: &String, summary: &Option<String>) -> (r: bool)
    ensures
        r == keyword_match(char_seqs(terms@), title@, opt_view(*summary)),
{
    if terms.len() == 0 {
        return true;
    }
    let mut hay = chars_of(title.as_str());
    append_chars(&mut hay, &chars_of(" "));
    match summary {
        Some(s) => append_chars(&mut hay, &chars_of(s.as_str())),
        None => {},
    }
    let hay_s = string_of(hay.as_slice());
    let low = chars_of(lowercase_str(hay_s.as_str()).as_str());
    assert(low@ == haystack(title@, opt_view(*summary))) by {
        match summary {
            Some(s) => {},
            None => { assert(hay@ =~= title@ + " "@ + Seq::<char>::empty()); },
        }
    }
    let ghost tv = char_seqs(terms@);
    let mut j: usize = 0;
    while j < terms.len()
        invariant
            j <= terms@.len(),
            tv == char_seqs(terms@),
            low@ == haystack(title@, opt_view(*summary)),
            forall|k: int| 0 <= k < j ==> !occurs_in(#[trigger] tv[k], low@),
        decreases terms@.len() - j,
    {
        if contains_chars(&low, &terms[j]) {
            assert(occurs_in(tv[j as int], low@));
            return true;
        }
        j += 1;
    }
    false
}

/// Authors from names: names that are blank after trimming are dropped,
/// the rest have their whitespace collapsed.
pub open spec fn named_authors(names: Seq<Seq<char>>) -> Seq<AuthorView>
    decreases names.len(),
{
    if names.len() == 0 {
        seq![]
    } else {
        let prev = named_authors(names.drop_last());
        if trim(names.last()).len() > 0 {
            prev.push(AuthorView { name: collapse_ws(names.last()), id: None })
        } else {
            prev
        }
    }
}

/// Authors from names, blank names dropped and whitespace collapsed.
pub fn author_list(names: Vec<String>) -> (r: Vec<Author>)
    ensures
        author_views(r@) == named_authors(crate::model::string_views(names@)),
{
    let ghost nv = crate::model::string_views(names@);
    let mut rest = names;
    let mut r: Vec<Author> = Vec::new();
    let ghost mut i: int = 0;
    assert(author_views(r@) =~= named_authors(nv.take(0)));
    while rest.len() > 0
        invariant
            0 <= i <= nv.len(),
            crate::model::string_views(rest@) == nv.skip(i),
            author_views(r@) == named_authors(nv.take(i)),
        decreases rest@.len(),
    {
        let ghost pending = rest@;
        let n = rest.remove(0);
        assert(crate::model::string_views(pending)[0] == pending[0]@);
        assert(crate::model::string_views(rest@) =~= crate::model::string_views(pending).drop_first());
        assert(n@ == nv[i]);
        assert(nv.take(i + 1).drop_last() =~= nv.take(i));
        let trimmed = trim_chars(&chars_of(n.as_str()));
        if trimmed.len() > 0 {
            let a = Author::new(normalize_title(n.as_str()));
            let ghost before = author_views(r@);
            r.push(a);
            assert(author_views(r@) =~= before.push(a@));
        }
        proof {
            i = i + 1;
        }
    }
    assert(nv.take(i) =~= nv);
    r
}

/// The model of a normalized document with no DOI, no content, no tags and
/// no metadata, supplied by one source; its canonical URL and title hash
/// are derived from `url` and `title`.
pub open spec fn doc_model(
    source: SourceKind,
    title: Seq<char>,
    url: Seq<char>,
    arxiv_id: Option<Seq<char>>,
    authors: Seq<AuthorView>,
    published_at: Option<Timestamp>,
    fetched_at: Timestamp,
    summary: Option<Seq<char>>,
    language: Option<Seq<char>>,
) -> DocView {
    DocView {
        identity: IdentityView {
            doi: None,
            arxiv_id,
            canonical_url: canonical_url_of(url),
            title_hash: title_hash_spec(title),
        },
        source,
        title,
        url,
        authors,
        published_at,
        fetched_at,
        summary,
        content: None,
        language,
        tags: seq![],
        sources: seq![source],
        extra: seq![],
    }
}

/// Builds a normalized document from its parts, deriving the canonical URL
/// and the title hash.
pub fn assemble_doc(
    source: SourceKind,
    title: String,
    url: String,
    arxiv_id: Option<String>,
    authors: Vec<Author>,
    published_at: Option<Timestamp>,
    fetched_at: Timestamp,
    summary: Option<String>,
    language: Option<String>,
) -> (d: Document)
    ensures
        d@ == doc_model(
            source,
            title@,
            url@,
            opt_view(arxiv_id),
            author_views(authors@),
            published_at,
            fetched_at,
            opt_view(summary),
            opt_view(language),
        ),
{
    let canonical_url = canonicalize_url(url.as_str());
    let th = title_hash(title.as_str());
    let mut sources: Vec<SourceKind> = Vec::new();
    sources.push(source);
    let d = Document {
        identity: DocIdentity { doi: None, arxiv_id, canonical_url, title_hash: th },
        source,
        title,
        url,
        authors,
        published_at,
        fetched_at,
        summary,
        content: None,
        language,
        tags: Vec::new(),
        sources,
        extra: Vec::new(),
    };
    assert(opt_view(d.identity.canonical_url) == canonical_url_of(d.url@));
    assert(crate::model::string_views(d.tags@) =~= Seq::<Seq<char>>::empty());
    assert(crate::model::extra_views(d.extra@) =~= Seq::<(Seq<char>, serde_json::Value)>::empty());
    assert(d.sources@ =~= seq![source]);
    d
}

/// A feed entry as the normalization reads it.
pub struct FeedEntry {
    pub title: Option<String>,
    pub summary: Option<String>,
    pub content_body: Option<String>,
    pub links: Vec<String>,
    pub id: String,
    pub published: Option<Timestamp>,
    pub updated: Option<Timestamp>,
    pub authors: Vec<String>,
}

/// Model of a feed entry as feed-rs reads it from the bytes: the fields the
/// normalization reads, and its id where feed-rs determines it (given in
/// the feed, or derived from the entry's first link and title); `None`
/// where feed-rs draws a random id.
pub struct FeedEntryModel {
    pub title: Option<Seq<char>>,
    pub summary: Option<Seq<char>>,
    pub content_body: Option<Seq<char>>,
    pub links: Seq<Seq<char>>,
    pub id: Option<Seq<char>>,
    pub published: Option<Timestamp>,
    pub updated: Option<Timestamp>,
    pub authors: Seq<Seq<char>>,
}

/// Whether an entry holds what its model says: every field, and the id
/// wherever the model gives one.
pub open spec fn entry_agrees(e: FeedEntry, m: FeedEntryModel) -> bool {
    &&& opt_view(e.title) == m.title
    &&& opt_view(e.summary) == m.summary
    &&& opt_view(e.content_body) == m.content_body
    &&& crate::model::string_views(e.links@) == m.links
    &&& (m.id matches Some(id) ==> e.id@ == id)
    &&& e.published == m.published
    &&& e.updated == m.updated
    &&& crate::model::string_views(e.authors@) == m.authors
}

/// Whether the entries are, one for one and in order, those the models
/// describe.
pub open spec fn entries_agree(es: Seq<FeedEntry>, ms: Seq<FeedEntryModel>) -> bool {
    es.len() == ms.len() && forall|i: int| 0 <= i < es.len() ==> #[trigger] entry_agrees(es[i], ms[i])
}

/// The normalized title of an entry (empty when it has none).
pub open spec fn feed_title(e: FeedEntry) -> Seq<char> {
    match e.title {
        Some(t) => collapse_ws(t@),
        None => seq![],
    }
}

/// The cleaned summary of an entry: its summary, else its content body,
/// with markup stripped.
pub open spec fn feed_summary(e: FeedEntry) -> Option<Seq<char>> {
    match e.summary {
        Some(s) => Some(strip_html_spec(s@)),
        None => match e.content_body {
            Some(b) => Some(strip_html_spec(b@)),
            None => None,
        },
    }
}

/// The entry's URL: its first link, else its id.
pub open spec fn feed_url(e: FeedEntry) -> Seq<char> {
    if e.links@.len() > 0 {
        e.links@[0]@
    } else {
        e.id@
    }
}

/// The document an entry normalizes to.
pub open spec fn feed_doc(e: FeedEntry, source: SourceKind, language: Option<Seq<char>>, now: Timestamp) -> DocView {
    doc_model(
        source,
        feed_title(e),
        feed_url(e),
        None,
        named_authors(crate::model::string_views(e.authors@)),
        match e.published {
            Some(t) => Some(t),
            None => e.updated,
        },
        now,
        feed_summary(e),
        language,
    )
}

/// The filter terms: the words of a non-blank filter text, lowercased;
/// none otherwise.
pub open spec fn filter_terms(filter_text: Option<Seq<char>>) -> Seq<Seq<char>> {
    match filter_text {
        Some(t) => if trim(t).len() > 0 {
            terms_of(t)
        } else {
            seq![]
        },
        None => seq![],
    }
}

/// The documents a list of entries normalizes to, items failing the
/// keyword filter dropped.
pub open spec fn feed_docs(
    entries: Seq<FeedEntry>,
    source: SourceKind,
    language: Option<Seq<char>>,
    terms: Seq<Seq<char>>,
    now: Timestamp,
) -> Seq<DocView>
    decreases entries.len(),
{
    if entries.len() == 0 {
        seq![]
    } else {
        let prev = feed_docs(entries.drop_last(), source, language, terms, now);
        let e = entries.last();
        if keyword_match(terms, feed_title(e), feed_summary(e)) {
            prev.push(feed_doc(e, source, language, now))
        } else {
            prev
        }
    }
}

/// The filter terms of an optional filter text.
pub open spec fn filter_of(filter_text: Option<&str>) -> Seq<Seq<char>> {
    filter_terms(
        match filter_text {
            Some(t) => Some(t@),
            None => None,
        },
    )
}

/// Normalizes one entry, or drops it when it fails the keyword filter.
fn entry_to_doc(
    e: FeedEntry,
    source: SourceKind,
    language: &Option<String>,
    terms: &Vec<Vec<char>>,
    now: Timestamp,
) -> (r: Option<Document>)
    ensures
        match r {
            Some(d) => keyword_match(char_seqs(terms@), feed_title(e), feed_summary(e)) && d@
                == feed_doc(e, source, opt_view(*language), now),
            None => !keyword_match(char_seqs(terms@), feed_title(e), feed_summary(e)),
        },
{
    let ghost ev = e;
    let FeedEntry { title, summary, content_body, links, id, published, updated, authors } = e;
    let title = match title {
        Some(t) => normalize_title(t.as_str()),
        None => String::new(),
    };
    let summary = match summary {
        Some(s) => Some(strip_html(s.as_str())),
        None => match content_body {
            Some(b) => Some(strip_html(b.as_str())),
            None => None,
        },
    };
    assert(title@ == feed_title(ev));
    assert(opt_view(summary) == feed_summary(ev));
    if !matches_terms(terms, &title, &summary) {
        return None;
    }
    let mut links = links;
    let url = if links.len() > 0 {
        links.remove(0)
    } else {
        id
    };
    assert(url@ == feed_url(ev));
    let published_at = match published {
        Some(t) => Some(t),
        None => updated,
    };
    let language = match language {
        Some(l) => Some(l.clone()),
        None => None,
    };
    let authors = author_list(authors);
    Some(assemble_doc(source, title, url, None, authors, published_at, now, summary, language))
}

/// Normalizes parsed feed entries into documents. With a non-blank
/// `filter_text` (subscription feeds), only items whose title or summary
/// contains one of its words (case-insensitively) are kept; search feeds
/// pass `None` and keep every item.
pub fn feed_entries_to_docs(
    entries: Vec<FeedEntry>,
    source: SourceKind,
    language: Option<String>,
    filter_text: Option<&str>,
    now: Timestamp,
) -> (r: Vec<Document>)
    ensures
        doc_views(r@) == feed_docs(
            entries@,
            source,
            opt_view(language),
            filter_terms(
                match filter_text {
                    Some(t) => Some(t@),
                    None => None,
                },
            ),
            now,
        ),
{
    let terms: Vec<Vec<char>> = match filter_text {
        Some(t) => {
            let trimmed = trim_chars(&chars_of(t));
            if trimmed.len() > 0 {
                query_terms(t)
            } else {
                Vec::new()
            }
        },
        None => Vec::new(),
    };
    let ghost tv = char_seqs(terms@);
    assert(tv =~= filter_terms(
        match filter_text {
            Some(t) => Some(t@),
            None => None,
        },
    ));
    let ghost all = entries@;
    let mut rest = entries;
    let mut r: Vec<Document> = Vec::new();
    let ghost mut i: int = 0;
    assert(doc_views(r@) =~= feed_docs(all.take(0), source, opt_view(language), tv, now));
    while rest.len() > 0
        invariant
            0 <= i <= all.len(),
            rest@ == all.skip(i),
            tv == char_seqs(terms@),
            doc_views(r@) == feed_docs(all.take(i), source, opt_view(language), tv, now),
        decreases rest@.len(),
    {
        let e = rest.remove(0);
        assert(rest@ =~= all.skip(i + 1));
        assert(all.take(i + 1).drop_last() =~= all.take(i));
        assert(all.take(i + 1).last() == e);
        let ghost before = doc_views(r@);
        match entry_to_doc(e, source, &language, &terms, now) {
            Some(d) => {
                r.push(d);
                assert(doc_views(r@) =~= before.push(d@));
            },
            None => {},
        }
        proof {
            i = i + 1;
        }
    }
    assert(all.take(i) =~= all);
    r
}

/// Parses feed bytes (RSS, Atom or JSON Feed) and normalizes the entries
/// as [`feed_entries_to_docs`] does (keyword filter included), fetched now;
/// a parse failure is a `Parse` error with feed-rs's message. The entries
/// are those feed-rs reads from the bytes ([`feed_entry_models`]); only the
/// ids feed-rs draws at random, and the fetch instant, are left open.
pub fn feed_to_docs(
    bytes: &[u8],
    source: SourceKind,
    language: Option<String>,
    filter_text: Option<&str>,
) -> (r: Result<Vec<Document>, FetchError>)
    ensures
        match r {
            Ok(docs) => feed_parse_error(bytes@) is None && exists|entries: Seq<FeedEntry>, now: Timestamp|
                entries_agree(entries, feed_entry_models(bytes@)) && doc_views(docs@)
                    == #[trigger] feed_docs(entries, source, opt_view(language), filter_of(filter_text), now),
            Err(FetchError::Parse(m)) => feed_parse_error(bytes@) == Some(m@),
            Err(_) => false,
        },
{
    let entries = match parse_feed_entries(bytes) {
        Ok(es) => es,
        Err(m) => return Err(FetchError::Parse(m)),
    };
    let now = crate::external::utc_now();
    let ghost lv = opt_view(language);
    let ghost ev = entries@;
    let docs = feed_entries_to_docs(entries, source, language, filter_text, now);
    assert(doc_views(docs@) == feed_docs(ev, source, lv, filter_of(filter_text), now));
    Ok(docs)
}

} // verus!
