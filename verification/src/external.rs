//! Trusted boundary: every call into std functions that vstd leaves
//! unspecified and into outside crates goes through an item of this file.
//! Each item states what the called code is documented (or shown by its
//! source) to do; nothing here is proved.

use vstd::prelude::*;

use crate::model::Timestamp;
use crate::text::is_ws;
use crate::sources::arxiv_oai::{event_views, XmlEvent, XmlEventView};
use crate::sources::feed_common::{entries_agree, FeedEntry, FeedEntryModel};
use quick_xml::events::Event;
use quick_xml::reader::Reader;
use chrono::{DateTime, Utc};
use feed_rs::parser::parse;

verus! {

/// `serde_json::Value`, carried through document metadata unread.
#[verifier::external_type_specification]
#[verifier::external_body]
pub struct ExJsonValue(serde_json::Value);

/// What `char::to_lowercase` yields for a character (Unicode lowercase
/// mapping, one to three characters).
pub uninterp spec fn char_lowercase(c: char) -> Seq<char>;

/// What `str::to_lowercase` yields for a string (Unicode lowercase mapping,
/// including the context-dependent final-sigma rule).
pub uninterp spec fn str_lowercase(s: Seq<char>) -> Seq<char>;

/// Whether `char::is_alphanumeric` holds (Unicode Alphabetic or Numeric).
pub uninterp spec fn char_alphanumeric(c: char) -> bool;

/// `str::chars`, collected: the characters of the string in order.
#[verifier::external_body]
pub(crate) fn chars_of(s: &str) -> (r: Vec<char>)
    ensures
        r@ == s@,
{
    s.chars().collect()
}

/// `FromIterator<char> for String`: the string made of the characters in order.
#[verifier::external_body]
pub(crate) fn string_of(cs: &[char]) -> (r: String)
    ensures
        r@ == cs@,
{
    cs.iter().collect()
}

/// `char::to_lowercase`, collected; the result is named [`char_lowercase`].
/// An ASCII character maps to its ASCII lowercase, as the documentation
/// states: `A`-`Z` to `a`-`z`, every other ASCII character to itself.
#[verifier::external_body]
pub(crate) fn lowercase_char(c: char) -> (r: Vec<char>)
    ensures
        r@ == char_lowercase(c),
        'A' <= c <= 'Z' ==> r@ == seq![((c as int) + 32) as char],
        (c as int) < 128 && !('A' <= c <= 'Z') ==> r@ == seq![c],
{
    c.to_lowercase().collect()
}

/// ASCII lowercase of one character: `A`-`Z` to `a`-`z`, every other
/// character unchanged.
pub open spec fn ascii_lower(c: char) -> char {
    if 'A' <= c <= 'Z' {
        ((c as int) + 32) as char
    } else {
        c
    }
}

/// `str::to_lowercase`; the result is named [`str_lowercase`]. On a string
/// made only of ASCII characters it lowercases each character in place, as
/// the documentation states (`A`-`Z` to `a`-`z`, the rest unchanged).
#[verifier::external_body]
pub(crate) fn lowercase_str(s: &str) -> (r: String)
    ensures
        r@ == str_lowercase(s@),
        (forall|i: int| 0 <= i < s@.len() ==> (#[trigger] s@[i] as int) < 128) ==> r@
            == s@.map_values(|c: char| ascii_lower(c)),
{
    s.to_lowercase()
}

/// `char::is_alphanumeric`; the result is named [`char_alphanumeric`].
/// Among ASCII characters exactly the letters and digits are alphanumeric,
/// as the documentation of `is_alphabetic` and `is_numeric` states; no
/// Unicode `White_Space` character is alphanumeric (none of them has the
/// `Alphabetic` property or a numeric general category).
#[verifier::external_body]
pub(crate) fn is_alphanumeric(c: char) -> (r: bool)
    ensures
        r == char_alphanumeric(c),
        (c as int) < 128 ==> r == ('a' <= c <= 'z' || 'A' <= c <= 'Z' || '0' <= c <= '9'),
        is_ws(c) ==> !r,
{
    c.is_alphanumeric()
}


// ---------------------------------------------------------------- chrono

/// The instant `chrono::DateTime::parse_from_rfc3339` reads from a string,
/// converted to UTC, or `None` where it reports an error.
pub uninterp spec fn rfc3339_instant(s: Seq<char>) -> Option<Timestamp>;

/// The UTC midnight of the date `chrono::NaiveDate::parse_from_str(s, "%Y-%m-%d")`
/// reads, or `None` where it reports an error.
pub uninterp spec fn ymd_midnight(s: Seq<char>) -> Option<Timestamp>;

/// Whole days (truncated toward zero) of `later - earlier` as
/// `chrono::DateTime::signed_duration_since(..).num_days()` computes them, or
/// `None` where an instant lies outside what `chrono::DateTime<Utc>` represents.
pub uninterp spec fn chrono_days_between(later: Timestamp, earlier: Timestamp) -> Option<i64>;

/// `chrono::DateTime::parse_from_rfc3339`, converted to UTC seconds and
/// nanoseconds; the result is named [`rfc3339_instant`].
#[verifier::external_body]
pub(crate) fn parse_rfc3339(s: &str) -> (r: Option<Timestamp>)
    ensures
        r == rfc3339_instant(s@),
{
    chrono::DateTime::parse_from_rfc3339(s).ok().map(|dt| {
        let u = dt.with_timezone(&chrono::Utc);
        Timestamp { secs: u.timestamp(), nanos: u.timestamp_subsec_nanos() }
    })
}

/// `chrono::NaiveDate::parse_from_str(s, "%Y-%m-%d")` at 00:00:00 UTC; the
/// result is named [`ymd_midnight`].
#[verifier::external_body]
pub(crate) fn parse_ymd_midnight(s: &str) -> (r: Option<Timestamp>)
    ensures
        r == ymd_midnight(s@),
{
    chrono::NaiveDate::parse_from_str(s, "%Y-%m-%d").ok().and_then(|d| d.and_hms_opt(0, 0, 0)).map(
        |n| Timestamp { secs: n.and_utc().timestamp(), nanos: 0 },
    )
}

/// Whole days between two instants, truncated toward zero.
pub open spec fn whole_days(later: Timestamp, earlier: Timestamp) -> int {
    let d = (later.secs * 1_000_000_000 + later.nanos) - (earlier.secs * 1_000_000_000 + earlier.nanos);
    if d >= 0 {
        d / 86_400_000_000_000
    } else {
        -((-d) / 86_400_000_000_000)
    }
}

/// An instant within about 250,000 years of 1970 and not inside a leap
/// second: chrono represents every such instant (its years run from
/// -262,143 to 262,142).
pub open spec fn representable(t: Timestamp) -> bool {
    -8_000_000_000_000 <= t.secs <= 8_000_000_000_000 && t.nanos < 1_000_000_000
}

/// `later.signed_duration_since(earlier).num_days()` on `chrono::DateTime<Utc>`
/// values built by `chrono::DateTime::from_timestamp`; the result is named
/// [`chrono_days_between`]. Outside leap seconds (nanoseconds below one
/// second) the duration is the exact difference and `num_days` truncates it
/// toward zero, as chrono's source shows; every [`representable`] instant
/// has a day count.
#[verifier::external_body]
pub(crate) fn days_between(later: Timestamp, earlier: Timestamp) -> (r: Option<i64>)
    ensures
        r == chrono_days_between(later, earlier),
        representable(later) && representable(earlier) ==> r is Some,
        match r {
            Some(d) => later.nanos < 1_000_000_000 && earlier.nanos < 1_000_000_000 ==> d == whole_days(
                later,
                earlier,
            ),
            None => true,
        },
{
    let a = chrono::DateTime::from_timestamp(later.secs, later.nanos)?;
    let b = chrono::DateTime::from_timestamp(earlier.secs, earlier.nanos)?;
    Some(a.signed_duration_since(b).num_days())
}

/// `chrono::Utc::now()` as seconds and nanoseconds. It reads the clock, so
/// the instant itself is not stated; its sub-second part is below one
/// second, since chrono builds it from `SystemTime`'s `subsec_nanos` (never a
/// leap second).
#[verifier::external_body]
pub(crate) fn utc_now() -> (r: Timestamp)
    ensures
        r.nanos < 1_000_000_000,
{
    let u = chrono::Utc::now();
    Timestamp { secs: u.timestamp(), nanos: u.timestamp_subsec_nanos() }
}

// ---------------------------------------------------------------- url

/// The decoded query pairs of `url::Url::parse(raw)`, or `None` where the
/// parse fails.
pub uninterp spec fn url_query_pairs(raw: Seq<char>) -> Option<Seq<(Seq<char>, Seq<char>)>>;

/// `url::Url::parse(raw)` with its query replaced by the
/// `application/x-www-form-urlencoded` serialization of `pairs`, serialized.
pub uninterp spec fn url_with_query_pairs(raw: Seq<char>, pairs: Seq<(Seq<char>, Seq<char>)>) -> Seq<char>;

/// `url::Url::parse(raw)` with its query removed, serialized.
pub uninterp spec fn url_without_query(raw: Seq<char>) -> Seq<char>;

/// Models of string pairs.
pub open spec fn pair_views(s: Seq<(String, String)>) -> Seq<(Seq<char>, Seq<char>)> {
    s.map_values(|p: (String, String)| (p.0@, p.1@))
}

/// `url::Url::parse` followed by `Url::query_pairs`, decoded and owned; the
/// result is named [`url_query_pairs`].
#[verifier::external_body]
pub(crate) fn parse_url_query_pairs(raw: &str) -> (r: Option<Vec<(String, String)>>)
    ensures
        match r {
            Some(v) => url_query_pairs(raw@) == Some(pair_views(v@)),
            None => url_query_pairs(raw@) is None,
        },
{
    let u = url::Url::parse(raw).ok()?;
    Some(u.query_pairs().map(|(k, v)| (k.into_owned(), v.into_owned())).collect())
}

/// `url::Url::parse`, `query_pairs_mut().clear().extend_pairs(pairs)` and
/// `to_string()`; the result is named [`url_with_query_pairs`].
#[verifier::external_body]
pub(crate) fn serialize_url_with_query_pairs(raw: &str, pairs: &Vec<(String, String)>) -> (r: String)
    requires
        url_query_pairs(raw@) is Some,
    ensures
        r@ == url_with_query_pairs(raw@, pair_views(pairs@)),
{
    let Ok(mut u) = url::Url::parse(raw) else { return String::new() };
    u.query_pairs_mut().clear().extend_pairs(pairs.iter());
    u.to_string()
}

/// `url::Url::parse`, `set_query(None)` and `to_string()`; the result is
/// named [`url_without_query`].
#[verifier::external_body]
pub(crate) fn serialize_url_without_query(raw: &str) -> (r: String)
    requires
        url_query_pairs(raw@) is Some,
    ensures
        r@ == url_without_query(raw@),
{
    let Ok(mut u) = url::Url::parse(raw) else { return String::new() };
    u.set_query(None);
    u.to_string()
}

/// The `Debug` text of the `chrono::DateTime<Utc>` at an instant (such as
/// `2024-01-01T00:00:00Z`), or `None` where chrono cannot represent it.
pub uninterp spec fn instant_debug_text(t: Timestamp) -> Option<Seq<char>>;

/// A character of chrono's `Debug` text of a UTC instant: a digit, a sign
/// or separator (`+ - : .`), the `T` between date and time or the `Z` of UTC.
pub open spec fn debug_text_char(c: char) -> bool {
    ('0' <= c && c <= '9') || c == '+' || c == '-' || c == ':' || c == '.' || c == 'T' || c == 'Z'
}

/// `format!("{:?}", dt)` of the `chrono::DateTime<Utc>` built by
/// `chrono::DateTime::from_timestamp`; the result is named [`instant_debug_text`].
/// As chrono's source shows: every [`representable`] instant has a text;
/// the text is made of [`debug_text_char`]s (year, month and day, `T`,
/// hours, minutes and seconds, an optional fraction, `Z`); and it writes out
/// every field of the instant, so no other instant has the same text.
#[verifier::external_body]
pub(crate) fn instant_debug(t: Timestamp) -> (r: Option<String>)
    ensures
        match r {
            Some(s) => instant_debug_text(t) == Some(s@),
            None => instant_debug_text(t) is None,
        },
        representable(t) ==> r is Some,
        r matches Some(s) ==> forall|i: int| 0 <= i < s@.len() ==> debug_text_char(#[trigger] s@[i]),
        r matches Some(s) ==> forall|u: Timestamp| #[trigger] instant_debug_text(u) == Some(s@) ==> u == t,
{
    chrono::DateTime::from_timestamp(t.secs, t.nanos).map(|dt| format!("{dt:?}"))
}

// ---------------------------------------------------------------- feed-rs

/// The display text of the error `feed_rs::parser::parse` reports for the
/// bytes, or `None` where it parses them.
pub uninterp spec fn feed_parse_error(bytes: Seq<u8>) -> Option<Seq<char>>;

/// The entries `feed_rs::parser::parse` reads from the bytes, in order,
/// with the fields the normalization reads (see [`FeedEntryModel`]).
pub uninterp spec fn feed_entry_models(bytes: Seq<u8>) -> Seq<FeedEntryModel>;

/// `feed_rs::parser::parse`, each entry's fields read into a [`FeedEntry`]
/// (title and summary text, content body, link targets, id, publication and
/// update instants, author names), or the error's display text. Success and
/// the error are named [`feed_parse_error`], the entries
/// [`feed_entry_models`]; an entry's id is stated only where feed-rs does
/// not draw it at random (an entry with neither id nor link gets a random
/// UUID).
#[verifier::external_body]
pub(crate) fn parse_feed_entries(bytes: &[u8]) -> (r: Result<Vec<FeedEntry>, String>)
    ensures
        match r {
            Ok(v) => feed_parse_error(bytes@) is None && entries_agree(v@, feed_entry_models(bytes@)),
            Err(m) => feed_parse_error(bytes@) == Some(m@),
        },
{
    let ts = |d: DateTime<Utc>| Timestamp { secs: d.timestamp(), nanos: d.timestamp_subsec_nanos() };
    let feed = parse(bytes).map_err(|e| e.to_string())?;
    Ok(feed.entries.into_iter().map(|e| FeedEntry {
        title: e.title.map(|t| t.content),
        summary: e.summary.map(|t| t.content),
        content_body: e.content.and_then(|c| c.body),
        links: e.links.into_iter().map(|l| l.href).collect(),
        id: e.id,
        published: e.published.map(ts),
        updated: e.updated.map(ts),
        authors: e.authors.into_iter().map(|p| p.name).collect(),
    }).collect())
}

// ---------------------------------------------------------------- std text

/// What `String::from_utf8_lossy` yields for the bytes: the decoded text,
/// each invalid sequence replaced by U+FFFD.
pub uninterp spec fn utf8_lossy_text(bytes: Seq<u8>) -> Seq<char>;

/// `String::from_utf8_lossy`, owned; the result is named
/// [`utf8_lossy_text`]. Valid UTF-8 is decoded unchanged, as the
/// documentation states.
#[verifier::external_body]
pub(crate) fn utf8_lossy(bytes: &[u8]) -> (r: String)
    ensures
        r@ == utf8_lossy_text(bytes@),
        vstd::utf8::valid_utf8(bytes@) ==> r@ == vstd::utf8::decode_utf8(bytes@),
{
    String::from_utf8_lossy(bytes).into_owned()
}

// ---------------------------------------------------------------- quick-xml

/// The events `quick_xml::reader::Reader::from_str(xml)` reads up to the end
/// of input (start and end tags with their qualified names, text unescaped
/// (empty where unescaping fails), CDATA bytes, any other event as
/// `Other`), or the display text of the first reading error.
pub uninterp spec fn xml_events_of(xml: Seq<char>) -> Result<Seq<XmlEventView>, Seq<char>>;

/// Reads every event of `xml` with `quick_xml::reader::Reader::read_event`,
/// converting each kept event; the result is named [`xml_events_of`].
#[verifier::external_body]
pub(crate) fn xml_events(xml: &str) -> (r: Result<Vec<XmlEvent>, String>)
    ensures
        match r {
            Ok(v) => xml_events_of(xml@) == Ok::<Seq<XmlEventView>, Seq<char>>(event_views(v@)),
            Err(m) => xml_events_of(xml@) == Err::<Seq<XmlEventView>, Seq<char>>(m@),
        },
{
    let mut reader = Reader::from_str(xml);
    let mut out = Vec::new();
    loop {
        out.push(match reader.read_event() {
            Ok(Event::Start(e)) => XmlEvent::Start(e.name().as_ref().to_vec()),
            Ok(Event::End(e)) => XmlEvent::End(e.name().as_ref().to_vec()),
            Ok(Event::Text(t)) => XmlEvent::Text(t.unescape().map(|c| c.into_owned()).unwrap_or_default()),
            Ok(Event::CData(t)) => XmlEvent::CData(t.into_inner().into_owned()),
            Ok(Event::Eof) => return Ok(out),
            Ok(_) => XmlEvent::Other,
            Err(e) => return Err(e.to_string()),
        });
    }
}

/// The `YYYY-MM-DD` date of the instant `days` whole days before `now`, as
/// chrono computes and formats it, or `None` where chrono cannot represent
/// an instant involved.
pub uninterp spec fn ymd_days_before(now: Timestamp, days: i64) -> Option<Seq<char>>;

/// `(now - chrono::TimeDelta::try_days(days)).format("%Y-%m-%d")`, with the
/// subtraction checked; the result is named [`ymd_days_before`].
#[verifier::external_body]
pub(crate) fn format_ymd_days_before(now: Timestamp, days: i64) -> (r: Option<String>)
    ensures
        match r {
            Some(s) => ymd_days_before(now, days) == Some(s@),
            None => ymd_days_before(now, days) is None,
        },
{
    let dt = chrono::DateTime::from_timestamp(now.secs, now.nanos)?;
    let from = dt.checked_sub_signed(chrono::TimeDelta::try_days(days)?)?;
    Some(from.format("%Y-%m-%d").to_string())
}

} // verus!
