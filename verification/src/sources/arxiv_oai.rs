//! arXiv through OAI-PMH, the first-choice path: date-based harvesting of
//! recent records (Dublin Core), filtered by keyword locally. Unlike the
//! live search API it is not rate limited per shared IP. Only the first
//! page of a harvest is read.

use vstd::prelude::*;

use crate::error::FetchError;
use crate::external::{
    chars_of, format_ymd_days_before, pair_views, string_of, utf8_lossy, utf8_lossy_text, xml_events,
    xml_events_of, ymd_days_before,
};
use crate::model::{opt_view, AuthorView, DocView, Document, SourceKind, Timestamp, Author};
use crate::normalize::{datetime_of, normalize_title, parse_datetime, strip_html, strip_html_spec};
use crate::source::RatePolicy;
use crate::sources::arxiv::{arxiv_id_from_id_url, arxiv_id_of};
use crate::sources::push_param;
use crate::sources::feed_common::{assemble_doc, doc_model, keyword_match, matches_terms, query_terms, terms_of};
use crate::text::{
    after_last, append_chars, owned, char_seqs, collapse_ws, eq_chars, rfind_char, skip_chars, trim,
    trim_chars,
};

verus! {

/// An XML event as the OAI parser reads it.
pub enum XmlEvent {
    /// A start tag, with its qualified name.
    Start(Vec<u8>),
    /// An end tag, with its qualified name.
    End(Vec<u8>),
    /// Unescaped text.
    Text(String),
    /// Raw CDATA content.
    CData(Vec<u8>),
    /// Any other event (declaration, comment, processing instruction,
    /// doctype, empty element), which the parser passes over.
    Other,
}

/// Model of an XML event.
pub enum XmlEventView {
    Start(Seq<u8>),
    End(Seq<u8>),
    Text(Seq<char>),
    CData(Seq<u8>),
    Other,
}

impl View for XmlEvent {
    type V = XmlEventView;

    open spec fn view(&self) -> XmlEventView {
        match self {
            XmlEvent::Start(n) => XmlEventView::Start(n@),
            XmlEvent::End(n) => XmlEventView::End(n@),
            XmlEvent::Text(t) => XmlEventView::Text(t@),
            XmlEvent::CData(b) => XmlEventView::CData(b@),
            XmlEvent::Other => XmlEventView::Other,
        }
    }
}

/// Models of events.
pub open spec fn event_views(s: Seq<XmlEvent>) -> Seq<XmlEventView> {
    s.map_values(|e: XmlEvent| e@)
}

/// The local part of a qualified name (after the last `:`), decoded lossily.
pub open spec fn local_name_of(qname: Seq<u8>) -> Seq<char> {
    after_last(utf8_lossy_text(qname), ':')
}

/// The local part of a qualified XML name, so that fields are found
/// whatever namespace prefix they carry.
pub fn local_name(qname: &[u8]) -> (r: String)
    ensures
        r@ == local_name_of(qname@),
{
    let s = chars_of(utf8_lossy(qname).as_str());
    let n = s.len();
    let local = match rfind_char(&s, ':') {
        Some(p) => skip_chars(&s, p + 1),
        None => s,
    };
    string_of(local.as_slice())
}

/// An OAI Dublin Core record.
pub struct OaiRecord {
    pub title: String,
    pub creators: Vec<String>,
    pub description: String,
    pub date: String,
    pub identifier: String,
}

/// Model of an OAI record.
#[verifier::ext_equal]
pub struct OaiRecordView {
    pub title: Seq<char>,
    pub creators: Seq<Seq<char>>,
    pub description: Seq<char>,
    pub date: Seq<char>,
    pub identifier: Seq<char>,
}

impl View for OaiRecord {
    type V = OaiRecordView;

    open spec fn view(&self) -> OaiRecordView {
        OaiRecordView {
            title: self.title@,
            creators: crate::model::string_views(self.creators@),
            description: self.description@,
            date: self.date@,
            identifier: self.identifier@,
        }
    }
}

/// Models of records.
pub open spec fn record_views(s: Seq<OaiRecord>) -> Seq<OaiRecordView> {
    s.map_values(|r: OaiRecord| r@)
}

/// A record with every field empty.
pub open spec fn empty_record() -> OaiRecordView {
    OaiRecordView { title: seq![], creators: seq![], description: seq![], date: seq![], identifier: seq![] }
}

/// Whether `s` starts with `http`.
pub open spec fn starts_with_http(s: Seq<char>) -> bool {
    s.len() >= 4 && s.take(4) == "http"@
}

/// The record after an element with local name `local` and trimmed text
/// `val` closes: the first title, description and date are kept, every
/// non-empty creator is added, and an identifier is taken while none is
/// known or when it is an `http` URL (preferred over the header's
/// `oai:arXiv.org:` form).
pub open spec fn set_field(r: OaiRecordView, local: Seq<char>, val: Seq<char>) -> OaiRecordView {
    if local == "title"@ && r.title.len() == 0 {
        OaiRecordView { title: val, ..r }
    } else if local == "creator"@ && val.len() > 0 {
        OaiRecordView { creators: r.creators.push(val), ..r }
    } else if local == "description"@ && r.description.len() == 0 {
        OaiRecordView { description: val, ..r }
    } else if local == "date"@ && r.date.len() == 0 {
        OaiRecordView { date: val, ..r }
    } else if local == "identifier"@ && (starts_with_http(val) || r.identifier.len() == 0) {
        OaiRecordView { identifier: val, ..r }
    } else {
        r
    }
}

/// Parser state: finished records, the record being read, the pending text.
#[verifier::ext_equal]
pub struct OaiState {
    pub records: Seq<OaiRecordView>,
    pub cur: Option<OaiRecordView>,
    pub text: Seq<char>,
}

/// One event of the record parser. A `record` start tag opens a record;
/// any start tag clears the pending text; text and CDATA accumulate; an end
/// tag stores the trimmed text into the open record's field and a `record`
/// end tag closes the record.
pub open spec fn oai_step(st: OaiState, ev: XmlEventView) -> OaiState {
    match ev {
        XmlEventView::Start(n) => OaiState {
            records: st.records,
            cur: if local_name_of(n) == "record"@ {
                Some(empty_record())
            } else {
                st.cur
            },
            text: seq![],
        },
        XmlEventView::Text(t) => OaiState { records: st.records, cur: st.cur, text: st.text + t },
        XmlEventView::CData(b) => OaiState {
            records: st.records,
            cur: st.cur,
            text: st.text + utf8_lossy_text(b),
        },
        XmlEventView::End(n) => {
            let local = local_name_of(n);
            let cur1 = match st.cur {
                Some(r) => Some(set_field(r, local, trim(st.text))),
                None => None,
            };
            if local == "record"@ {
                OaiState {
                    records: match cur1 {
                        Some(r) => st.records.push(r),
                        None => st.records,
                    },
                    cur: None,
                    text: seq![],
                }
            } else {
                OaiState { records: st.records, cur: cur1, text: seq![] }
            }
        },
        XmlEventView::Other => st,
    }
}

/// The parser state after a sequence of events.
pub open spec fn oai_fold(events: Seq<XmlEventView>) -> OaiState
    decreases events.len(),
{
    if events.len() == 0 {
        OaiState { records: seq![], cur: None, text: seq![] }
    } else {
        oai_step(oai_fold(events.drop_last()), events.last())
    }
}

/// Executable parser state.
struct OaiBuild {
    records: Vec<OaiRecord>,
    cur: Option<OaiRecord>,
    text: Vec<char>,
}

/// Model of the executable parser state.
spec fn build_view(b: OaiBuild) -> OaiState {
    OaiState {
        records: record_views(b.records@),
        cur: match b.cur {
            Some(r) => Some(r@),
            None => None,
        },
        text: b.text@,
    }
}

/// Applies one closing element to the open record.
fn set_record_field(r: OaiRecord, local: &Vec<char>, val: Vec<char>) -> (out: OaiRecord)
    ensures
        out@ == set_field(r@, local@, val@),
{
    let mut r = r;
    if eq_chars(local, &chars_of("title")) && r.title.as_str().unicode_len() == 0 {
        r.title = string_of(val.as_slice());
    } else if eq_chars(local, &chars_of("creator")) && val.len() > 0 {
        let ghost before = crate::model::string_views(r.creators@);
        r.creators.push(string_of(val.as_slice()));
        assert(crate::model::string_views(r.creators@) =~= before.push(val@));
    } else if eq_chars(local, &chars_of("description")) && r.description.as_str().unicode_len() == 0 {
        r.description = string_of(val.as_slice());
    } else if eq_chars(local, &chars_of("date")) && r.date.as_str().unicode_len() == 0 {
        r.date = string_of(val.as_slice());
    } else if eq_chars(local, &chars_of("identifier")) && (starts_with_http_chars(&val)
        || r.identifier.as_str().unicode_len() == 0) {
        r.identifier = string_of(val.as_slice());
    }
    r
}

/// Whether the text starts with `http`.
fn starts_with_http_chars(v: &Vec<char>) -> (r: bool)
    ensures
        r == starts_with_http(v@),
{
    let http = chars_of("http");
    proof {
        reveal_strlit("http");
    }
    if v.len() < 4 {
        return false;
    }
    let r = crate::text::matches_at(v, &http, 0);
    assert(v@.subrange(0, 4) =~= v@.take(4));
    r
}

/// One event applied to the executable parser state.
fn oai_apply(st: OaiBuild, ev: XmlEvent) -> (out: OaiBuild)
    ensures
        build_view(out) == oai_step(build_view(st), ev@),
{
    let OaiBuild { mut records, cur, mut text } = st;
    let ghost sv = build_view(OaiBuild { records, cur, text });
    match ev {
        XmlEvent::Start(n) => {
            let local = chars_of(local_name(n.as_slice()).as_str());
            let cur = if eq_chars(&local, &chars_of("record")) {
                let fresh = OaiRecord {
                    title: String::new(),
                    creators: Vec::new(),
                    description: String::new(),
                    date: String::new(),
                    identifier: String::new(),
                };
                assert(fresh@ =~= empty_record());
                Some(fresh)
            } else {
                cur
            };
            let out = OaiBuild { records, cur, text: Vec::new() };
            assert(build_view(out) =~= oai_step(sv, ev@));
            out
        },
        XmlEvent::Text(t) => {
            append_chars(&mut text, &chars_of(t.as_str()));
            OaiBuild { records, cur, text }
        },
        XmlEvent::CData(b) => {
            append_chars(&mut text, &chars_of(utf8_lossy(b.as_slice()).as_str()));
            OaiBuild { records, cur, text }
        },
        XmlEvent::Other => OaiBuild { records, cur, text },
        XmlEvent::End(n) => {
            let local = chars_of(local_name(n.as_slice()).as_str());
            let cur1 = match cur {
                Some(r) => Some(set_record_field(r, &local, trim_chars(&text))),
                None => None,
            };
            if eq_chars(&local, &chars_of("record")) {
                match cur1 {
                    Some(r) => {
                        let ghost before = record_views(records@);
                        records.push(r);
                        assert(record_views(records@) =~= before.push(r@));
                    },
                    None => {},
                }
                let out = OaiBuild { records, cur: None, text: Vec::new() };
                assert(build_view(out) =~= oai_step(sv, ev@));
                out
            } else {
                let out = OaiBuild { records, cur: cur1, text: Vec::new() };
                assert(build_view(out) =~= oai_step(sv, ev@));
                out
            }
        },
    }
}

/// Parses an OAI-PMH `ListRecords` response into its Dublin Core records,
/// matching element names by local name so any namespace prefix works. An
/// XML reading error is a `Parse` error with quick-xml's message.
pub fn parse_oai(xml: &str) -> (r: Result<Vec<OaiRecord>, FetchError>)
    ensures
        match xml_events_of(xml@) {
            Err(m) => r matches Err(FetchError::Parse(e)) && e@ == m,
            Ok(evs) => r matches Ok(recs) && record_views(recs@) == oai_fold(evs).records,
        },
{
    let events = match xml_events(xml) {
        Ok(v) => v,
        Err(m) => return Err(FetchError::Parse(m)),
    };
    let ghost all = event_views(events@);
    let mut rest = events;
    let mut st = OaiBuild { records: Vec::new(), cur: None, text: Vec::new() };
    let ghost mut i: int = 0;
    assert(record_views(st.records@) =~= seq![]);
    assert(build_view(st) =~= oai_fold(all.take(0)));
    while rest.len() > 0
        invariant
            0 <= i <= all.len(),
            event_views(rest@) == all.skip(i),
            build_view(st) == oai_fold(all.take(i)),
        decreases rest@.len(),
    {
        let ghost pending = rest@;
        let ev = rest.remove(0);
        assert(event_views(pending)[0] == pending[0]@);
        assert(event_views(rest@) =~= event_views(pending).drop_first());
        assert(event_views(rest@) =~= all.skip(i + 1));
        assert(ev@ == all[i]);
        assert(all.take(i + 1).drop_last() =~= all.take(i));
        st = oai_apply(st, ev);
        proof {
            i = i + 1;
        }
    }
    assert(all.take(i) =~= all);
    Ok(st.records)
}

/// `http://arxiv.org/abs/2401.00001v1` -> `2401.00001` (the same rule as
/// [`arxiv_id_from_id_url`]).
pub fn arxiv_id_from_url(url: &str) -> (r: Option<String>)
    ensures
        opt_view(r) == arxiv_id_of(url@),
{
    arxiv_id_from_id_url(url)
}

/// The normalized title of a record.
pub open spec fn record_title(r: OaiRecordView) -> Seq<char> {
    collapse_ws(r.title)
}

/// The cleaned summary of a record: its description with markup stripped,
/// or none when the description is empty.
pub open spec fn record_summary(r: OaiRecordView) -> Option<Seq<char>> {
    if r.description.len() == 0 {
        None
    } else {
        Some(strip_html_spec(r.description))
    }
}

/// The document a record normalizes to, fetched at `fetched_at`.
pub open spec fn oai_doc(r: OaiRecordView, language: Option<Seq<char>>, fetched_at: Timestamp) -> DocView {
    doc_model(
        SourceKind::Arxiv,
        record_title(r),
        r.identifier,
        arxiv_id_of(r.identifier),
        r.creators.map_values(|c: Seq<char>| AuthorView { name: collapse_ws(c), id: None }),
        datetime_of(r.date),
        fetched_at,
        record_summary(r),
        language,
    )
}

/// The records passing the keyword filter, in order.
pub open spec fn kept_records(records: Seq<OaiRecordView>, terms: Seq<Seq<char>>) -> Seq<OaiRecordView> {
    records.filter(|r: OaiRecordView| keyword_match(terms, record_title(r), record_summary(r)))
}

/// Normalizes harvested records into documents, keeping those whose title
/// or summary contains a word of the query (case-insensitively; an empty
/// query keeps all). Each document's fetch time is read from the clock as
/// it is built, so only that field is left open.
pub fn oai_records_to_docs(records: Vec<OaiRecord>, query_text: &str, language: Option<String>) -> (r: Vec<Document>)
    ensures
        ({
            let kept = kept_records(record_views(records@), terms_of(query_text@));
            &&& r@.len() == kept.len()
            &&& forall|i: int|
                0 <= i < r@.len() ==> (#[trigger] r@[i])@ == oai_doc(
                    kept[i],
                    opt_view(language),
                    r@[i].fetched_at,
                )
        }),
{
    let terms = query_terms(query_text);
    let ghost tv = char_seqs(terms@);
    let ghost all = record_views(records@);
    let ghost pred = |r: OaiRecordView| keyword_match(tv, record_title(r), record_summary(r));
    let mut rest = records;
    let mut out: Vec<Document> = Vec::new();
    let ghost mut i: int = 0;
    while rest.len() > 0
        invariant
            0 <= i <= all.len(),
            record_views(rest@) == all.skip(i),
            tv == char_seqs(terms@),
            tv == terms_of(query_text@),
            pred == (|r: OaiRecordView| keyword_match(tv, record_title(r), record_summary(r))),
            out@.len() == all.take(i).filter(pred).len(),
            forall|k: int|
                0 <= k < out@.len() ==> (#[trigger] out@[k])@ == oai_doc(
                    all.take(i).filter(pred)[k],
                    opt_view(language),
                    out@[k].fetched_at,
                ),
        decreases rest@.len(),
    {
        let ghost pending = rest@;
        let rec = rest.remove(0);
        assert(record_views(pending)[0] == pending[0]@);
        assert(record_views(rest@) =~= record_views(pending).drop_first());
        assert(record_views(rest@) =~= all.skip(i + 1));
        assert(rec@ == all[i]);
        assert(all.take(i + 1).drop_last() =~= all.take(i));
        reveal_with_fuel(Seq::filter, 1);
        let ghost rv = rec@;
        let OaiRecord { title, creators, description, date, identifier } = rec;
        let title = normalize_title(title.as_str());
        let summary = if description.as_str().unicode_len() == 0 {
            None
        } else {
            Some(strip_html(description.as_str()))
        };
        if matches_terms(&terms, &title, &summary) {
            let arxiv_id = arxiv_id_from_id_url(identifier.as_str());
            let mut authors: Vec<Author> = Vec::new();
            let mut k: usize = 0;
            while k < creators.len()
                invariant
                    k <= creators@.len(),
                    rv.creators == crate::model::string_views(creators@),
                    crate::model::author_views(authors@) == rv.creators.take(k as int).map_values(
                        |c: Seq<char>| AuthorView { name: collapse_ws(c), id: None },
                    ),
                decreases creators@.len() - k,
            {
                let a = Author::new(normalize_title(creators[k].as_str()));
                let ghost before = crate::model::author_views(authors@);
                assert(rv.creators[k as int] == creators@[k as int]@);
                assert(a@ == AuthorView { name: collapse_ws(rv.creators[k as int]), id: None });
                authors.push(a);
                assert(crate::model::author_views(authors@) =~= before.push(a@));
                assert(rv.creators.take(k + 1) =~= rv.creators.take(k as int).push(rv.creators[k as int]));
                k += 1;
                assert(crate::model::author_views(authors@) =~= rv.creators.take(k as int).map_values(
                    |c: Seq<char>| AuthorView { name: collapse_ws(c), id: None },
                ));
            }
            assert(rv.creators.take(k as int) =~= rv.creators);
            let published_at = parse_datetime(date.as_str());
            let lang = match &language {
                Some(l) => Some(l.clone()),
                None => None,
            };
            let now = crate::external::utc_now();
            let d = assemble_doc(SourceKind::Arxiv, title, identifier, arxiv_id, authors, published_at, now, summary, lang);
            assert(all.take(i + 1).filter(pred) =~= all.take(i).filter(pred).push(rv));
            out.push(d);
        } else {
            assert(all.take(i + 1).filter(pred) =~= all.take(i).filter(pred));
        }
        proof {
            i = i + 1;
        }
    }
    assert(all.take(i) =~= all);
    out
}

/// The harvest start date, `from_days` whole days (at least zero) before
/// `now`, as `YYYY-MM-DD`; `None` where the calendar cannot represent it.
pub fn oai_from_date(now: Timestamp, from_days: i64) -> (r: Option<String>)
    ensures
        opt_view(r) == ymd_days_before(now, if from_days < 0 { 0 } else { from_days }),
{
    let days = if from_days < 0 {
        0
    } else {
        from_days
    };
    format_ymd_days_before(now, days)
}

/// OAI-PMH has no strict rate limit: half a second between requests, one
/// connection, to be polite.
pub fn oai_rate_policy() -> (r: RatePolicy)
    ensures
        r.min_interval_ms == 500,
        r.max_concurrency == 1,
        r.daily_quota is None,
{
    RatePolicy { min_interval_ms: 500, max_concurrency: 1, daily_quota: None }
}

/// Settings of the arXiv OAI-PMH harvesting source.
pub struct ArxivOaiSource {
    pub base_url: String,
    /// How many days back the harvest reaches (`from=`).
    pub from_days: i64,
    /// The OAI set harvested (such as `cs`); all sets when absent.
    pub set: Option<String>,
    pub language: Option<String>,
}

/// The harvest parameters given the start date: `verb=ListRecords`,
/// `metadataPrefix=oai_dc`, `from`, then `set` when one is configured.
pub open spec fn harvest_params_of(from: Seq<char>, set: Option<Seq<char>>) -> Seq<(Seq<char>, Seq<char>)> {
    let base = seq![("verb"@, "ListRecords"@), ("metadataPrefix"@, "oai_dc"@), ("from"@, from)];
    match set {
        Some(s) => base.push(("set"@, s)),
        None => base,
    }
}

impl ArxivOaiSource {
    /// The public endpoint, the last seven days, every set, documents
    /// tagged `en`.
    pub fn new() -> (r: Self)
        ensures
            r.base_url@ == "https://oaipmh.arxiv.org/oai"@,
            r.from_days == 7,
            r.set is None,
            opt_view(r.language) == Some("en"@),
    {
        ArxivOaiSource {
            base_url: owned("https://oaipmh.arxiv.org/oai"),
            from_days: 7,
            set: None,
            language: Some(owned("en")),
        }
    }

    /// The same settings with another endpoint (a mock server in tests).
    pub fn with_base_url(self, base_url: String) -> (r: Self)
        ensures
            r.base_url@ == base_url@,
            r.from_days == self.from_days,
            opt_view(r.set) == opt_view(self.set),
            opt_view(r.language) == opt_view(self.language),
    {
        ArxivOaiSource { base_url, ..self }
    }

    /// The same settings harvesting `days` days back.
    pub fn with_from_days(self, days: i64) -> (r: Self)
        ensures
            r.base_url@ == self.base_url@,
            r.from_days == days,
            opt_view(r.set) == opt_view(self.set),
            opt_view(r.language) == opt_view(self.language),
    {
        ArxivOaiSource { from_days: days, ..self }
    }

    /// The same settings restricted to one OAI set.
    pub fn with_set(self, set: String) -> (r: Self)
        ensures
            r.base_url@ == self.base_url@,
            r.from_days == self.from_days,
            opt_view(r.set) == Some(set@),
            opt_view(r.language) == opt_view(self.language),
    {
        ArxivOaiSource { set: Some(set), ..self }
    }

    /// The harvest request's query parameters at `now`; `None` when the
    /// start date cannot be represented (see [`oai_from_date`]).
    pub fn harvest_params(&self, now: Timestamp) -> (r: Option<Vec<(String, String)>>)
        ensures
            match ymd_days_before(
                now,
                if self.from_days < 0 {
                    0
                } else {
                    self.from_days
                },
            ) {
                Some(from) => r matches Some(ps) && pair_views(ps@) == harvest_params_of(
                    from,
                    opt_view(self.set),
                ),
                None => r is None,
            },
    {
        let from = match oai_from_date(now, self.from_days) {
            Some(f) => f,
            None => return None,
        };
        let mut ps: Vec<(String, String)> = Vec::new();
        push_param(&mut ps, "verb", owned("ListRecords"));
        push_param(&mut ps, "metadataPrefix", owned("oai_dc"));
        push_param(&mut ps, "from", from);
        match &self.set {
            Some(s) => push_param(&mut ps, "set", s.clone()),
            None => {},
        }
        Some(ps)
    }

    /// The documents of a harvested response: its records filtered by the
    /// query's words and normalized (see [`parse_oai`] and
    /// [`oai_records_to_docs`]).
    pub fn docs_from_body(&self, xml: &str, query_text: &str) -> (r: Result<Vec<Document>, FetchError>)
        ensures
            match xml_events_of(xml@) {
                Err(m) => r matches Err(FetchError::Parse(e)) && e@ == m,
                Ok(evs) => r matches Ok(docs) && ({
                    let kept = kept_records(oai_fold(evs).records, terms_of(query_text@));
                    &&& docs@.len() == kept.len()
                    &&& forall|i: int|
                        0 <= i < docs@.len() ==> (#[trigger] docs@[i])@ == oai_doc(
                            kept[i],
                            opt_view(self.language),
                            docs@[i].fetched_at,
                        )
                }),
            },
    {
        let records = match parse_oai(xml) {
            Ok(rs) => rs,
            Err(e) => return Err(e),
        };
        let language = match &self.language {
            Some(l) => Some(l.clone()),
            None => None,
        };
        Ok(oai_records_to_docs(records, query_text, language))
    }

    /// Half a second between requests, one connection.
    pub fn rate_policy(&self) -> (r: RatePolicy)
        ensures
            r.min_interval_ms == 500,
            r.max_concurrency == 1,
            r.daily_quota is None,
    {
        oai_rate_policy()
    }
}

} // verus!
