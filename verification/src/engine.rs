//! Decisions of the fan-out search: which registered sources a query
//! targets, how per-source outcomes become results and warnings, which
//! fused documents pass the date conditions, and the cache key of a query.
//! The concurrent fetching itself is driven by the caller.

use vstd::prelude::*;

use crate::error::{fetch_error_text, ConnectorWarning, FetchError};
use crate::external::{
    ascii_lower, chars_of, chrono_days_between, days_between, debug_text_char, instant_debug, instant_debug_text,
    representable,
    whole_days,
    lowercase_str, str_lowercase, string_of,
};
use crate::model::{ts_lt, Document, Recency, SearchQuery, SourceKind, Timestamp};
use crate::properties::{law_cache_key_ignores_source_order, lemma_key_tells_fields};
use crate::text::{lemma_trim_keeps, append_chars, decimal, decimal_chars, join_by, push_piece, trim, trim_chars};

verus! {

/// Whether a query targets a source of this kind: every kind when the
/// query names none, else the named ones.
pub open spec fn targets(query_sources: Seq<SourceKind>, kind: SourceKind) -> bool {
    query_sources.len() == 0 || query_sources.contains(kind)
}

/// Whether the query targets sources of this kind.
pub fn source_selected(query_sources: &Vec<SourceKind>, kind: SourceKind) -> (r: bool)
    ensures
        r == targets(query_sources@, kind),
{
    if query_sources.len() == 0 {
        return true;
    }
    let mut i: usize = 0;
    while i < query_sources.len()
        invariant
            i <= query_sources@.len(),
            forall|k: int| 0 <= k < i ==> query_sources@[k] != kind,
        decreases query_sources@.len() - i,
    {
        if query_sources[i] == kind {
            return true;
        }
        i += 1;
    }
    false
}

/// What became of one source's search.
pub enum SourceOutcome<T> {
    /// The source answered with results.
    Found(T),
    /// The source failed.
    Failed(FetchError),
    /// The source did not answer in time.
    TimedOut,
}

/// Results kept from the outcomes, in order.
pub open spec fn found_of<T>(outcomes: Seq<(SourceKind, SourceOutcome<T>)>) -> Seq<T>
    decreases outcomes.len(),
{
    if outcomes.len() == 0 {
        seq![]
    } else {
        let prev = found_of(outcomes.drop_last());
        match outcomes.last().1 {
            SourceOutcome::Found(t) => prev.push(t),
            _ => prev,
        }
    }
}

/// Warnings (source and message) raised by the outcomes, in order: the
/// error text of a failure, `source timed out` for a timeout.
pub open spec fn warnings_of<T>(outcomes: Seq<(SourceKind, SourceOutcome<T>)>) -> Seq<(SourceKind, Seq<char>)>
    decreases outcomes.len(),
{
    if outcomes.len() == 0 {
        seq![]
    } else {
        let prev = warnings_of(outcomes.drop_last());
        let kind = outcomes.last().0;
        match outcomes.last().1 {
            SourceOutcome::Found(_) => prev,
            SourceOutcome::Failed(e) => prev.push((kind, fetch_error_text(e))),
            SourceOutcome::TimedOut => prev.push((kind, "source timed out"@)),
        }
    }
}

/// Models of warnings.
pub open spec fn warning_views(w: Seq<ConnectorWarning>) -> Seq<(SourceKind, Seq<char>)> {
    w.map_values(|x: ConnectorWarning| (x.source, x.message@))
}

/// Splits per-source outcomes into the results of the sources that
/// answered (in outcome order, which rank fusion relies on) and a warning
/// for each failure or timeout, so that partial failures are reported
/// rather than dropped.
pub fn collect_outcomes<T>(outcomes: Vec<(SourceKind, SourceOutcome<T>)>) -> (r: (Vec<T>, Vec<ConnectorWarning>))
    ensures
        r.0@ == found_of(outcomes@),
        warning_views(r.1@) == warnings_of(outcomes@),
{
    let ghost all = outcomes@;
    let mut rest = outcomes;
    let mut found: Vec<T> = Vec::new();
    let mut warnings: Vec<ConnectorWarning> = Vec::new();
    let ghost mut i: int = 0;
    assert(all.take(0) =~= Seq::<(SourceKind, SourceOutcome<T>)>::empty());
    assert(warning_views(warnings@) =~= Seq::<(SourceKind, Seq<char>)>::empty());
    while rest.len() > 0
        invariant
            0 <= i <= all.len(),
            rest@ == all.skip(i),
            found@ == found_of(all.take(i)),
            warning_views(warnings@) == warnings_of(all.take(i)),
        decreases rest@.len(),
    {
        let (kind, outcome) = rest.remove(0);
        assert(rest@ =~= all.skip(i + 1));
        assert(all.take(i + 1).drop_last() =~= all.take(i));
        assert(all.take(i + 1).last() == (kind, outcome));
        let ghost wv = warning_views(warnings@);
        match outcome {
            SourceOutcome::Found(t) => {
                found.push(t);
            },
            SourceOutcome::Failed(e) => {
                let w = ConnectorWarning::new(kind, e.message());
                warnings.push(w);
                assert(warning_views(warnings@) =~= wv.push((kind, fetch_error_text(e))));
            },
            SourceOutcome::TimedOut => {
                let w = ConnectorWarning::timeout(kind);
                warnings.push(w);
                assert(warning_views(warnings@) =~= wv.push((kind, "source timed out"@)));
            },
        }
        proof {
            i = i + 1;
        }
    }
    assert(all.take(i) =~= all);
    (found, warnings)
}

/// Maximum age in whole days admitted by a recency window.
pub open spec fn recency_days(r: Recency) -> i64 {
    match r {
        Recency::Day => 1,
        Recency::Week => 7,
        Recency::Month => 31,
        Recency::Year => 366,
    }
}

/// Whether a document passes the query's date conditions. An undated
/// document always passes (uncertainty is kept); a dated one must be at
/// most the recency window old, not before `from_date` and not after
/// `to_date`. An instant the calendar cannot represent is not judged by age.
pub open spec fn passes_dates(
    published: Option<Timestamp>,
    recency: Option<Recency>,
    from_date: Option<Timestamp>,
    to_date: Option<Timestamp>,
    now: Timestamp,
) -> bool {
    &&& match (recency, published) {
        (Some(rec), Some(p)) => match chrono_days_between(now, p) {
            Some(days) => days <= recency_days(rec),
            None => true,
        },
        _ => true,
    }
    &&& match (from_date, published) {
        (Some(f), Some(p)) => !ts_lt(p, f),
        _ => true,
    }
    &&& match (to_date, published) {
        (Some(t), Some(p)) => !ts_lt(t, p),
        _ => true,
    }
}

/// The recency, from-date and to-date filter. Documents without a date are
/// never dropped by it.
pub fn passes_date_filter(d: &Document, q: &SearchQuery, now: Timestamp) -> (r: bool)
    ensures
        r == passes_dates(d.published_at, q.recency, q.from_date, q.to_date, now),
        match d.published_at {
            Some(p) => representable(now) && representable(p) ==> r == (match q.recency {
                Some(rec) => whole_days(now, p) <= recency_days(rec),
                None => true,
            } && match q.from_date {
                Some(f) => !ts_lt(p, f),
                None => true,
            } && match q.to_date {
                Some(t) => !ts_lt(t, p),
                None => true,
            }),
            None => r,
        },
{
    if let (Some(rec), Some(published)) = (q.recency, d.published_at) {
        let max_days: i64 = match rec {
            Recency::Day => 1,
            Recency::Week => 7,
            Recency::Month => 31,
            Recency::Year => 366,
        };
        if let Some(days) = days_between(now, published) {
            if days > max_days {
                return false;
            }
        }
    }
    if let (Some(from), Some(published)) = (q.from_date, d.published_at) {
        if published.is_before(&from) {
            return false;
        }
    }
    if let (Some(to), Some(published)) = (q.to_date, d.published_at) {
        if to.is_before(&published) {
            return false;
        }
    }
    true
}

/// Positions of the documents that pass the date filter, in order, at most
/// `limit` of them.
pub open spec fn selected_positions(docs: Seq<Document>, q: SearchQuery, now: Timestamp) -> Seq<int> {
    let passing = Seq::new(docs.len(), |i: int| i).filter(
        |i: int| passes_dates(docs[i].published_at, q.recency, q.from_date, q.to_date, now),
    );
    if passing.len() <= q.limit {
        passing
    } else {
        passing.take(q.limit as int)
    }
}

/// The final selection of fused results: positions of the documents that
/// pass the date filter, in order, cut to the query's limit.
pub fn select_results(docs: &Vec<Document>, q: &SearchQuery, now: Timestamp) -> (r: Vec<usize>)
    ensures
        r@.map_values(|i: usize| i as int) == selected_positions(docs@, *q, now),
{
    let mut r: Vec<usize> = Vec::new();
    let mut i: usize = 0;
    let ghost pred = |i: int| passes_dates(docs@[i].published_at, q.recency, q.from_date, q.to_date, now);
    while i < docs.len()
        invariant
            i <= docs@.len(),
            pred == (|i: int| passes_dates(docs@[i].published_at, q.recency, q.from_date, q.to_date, now)),
            r@.len() <= q.limit,
            ({
                let passing = Seq::new(i as nat, |k: int| k).filter(pred);
                r@.map_values(|k: usize| k as int) == if passing.len() <= q.limit {
                    passing
                } else {
                    passing.take(q.limit as int)
                }
            }),
        decreases docs@.len() - i,
    {
        let ghost passing = Seq::new(i as nat, |k: int| k).filter(pred);
        let ghost next = Seq::new((i + 1) as nat, |k: int| k).filter(pred);
        assert(Seq::new((i + 1) as nat, |k: int| k).drop_last() =~= Seq::new(i as nat, |k: int| k));
        reveal_with_fuel(Seq::filter, 1);
        let keep = passes_date_filter(&docs[i], q, now);
        let ghost before = r@;
        if keep {
            assert(next =~= passing.push(i as int));
            if r.len() < q.limit {
                r.push(i);
                assert(r@.map_values(|k: usize| k as int) =~= before.map_values(|k: usize| k as int).push(i as int));
                assert(passing.len() <= q.limit);
            } else {
                assert(next.take(q.limit as int) =~= passing.take(q.limit as int)) by {
                    if passing.len() <= q.limit {
                        assert(passing.len() == q.limit);
                        assert(passing.take(q.limit as int) =~= passing);
                    }
                }
            }
        } else {
            assert(next =~= passing);
        }
        i += 1;
    }
    assert(Seq::new(docs@.len(), |k: int| k) =~= Seq::new(i as nat, |k: int| k));
    r
}

/// The `Debug` name of a source kind.
pub open spec fn kind_name(k: SourceKind) -> Seq<char> {
    match k {
        SourceKind::Arxiv => "Arxiv"@,
        SourceKind::News => "News"@,
        SourceKind::Blog => "Blog"@,
        SourceKind::Youtube => "Youtube"@,
        SourceKind::Web => "Web"@,
    }
}

/// The `Debug` name of a source kind.
pub fn kind_name_chars(k: SourceKind) -> (r: Vec<char>)
    ensures
        r@ == kind_name(k),
{
    match k {
        SourceKind::Arxiv => chars_of("Arxiv"),
        SourceKind::News => chars_of("News"),
        SourceKind::Blog => chars_of("Blog"),
        SourceKind::Youtube => chars_of("Youtube"),
        SourceKind::Web => chars_of("Web"),
    }
}

/// The kinds in alphabetical order of their names.
pub open spec fn kinds_by_name() -> Seq<SourceKind> {
    seq![SourceKind::Arxiv, SourceKind::Blog, SourceKind::News, SourceKind::Web, SourceKind::Youtube]
}

/// `n` copies of `w`.
pub open spec fn repeat(w: Seq<char>, n: nat) -> Seq<Seq<char>> {
    Seq::new(n, |i: int| w)
}

/// Number of occurrences of a kind.
pub open spec fn kind_count(kinds: Seq<SourceKind>, kind: SourceKind) -> nat {
    kinds.filter(|k: SourceKind| k == kind).len()
}

/// The names of the first `j` kinds in alphabetical order, each repeated
/// as often as its kind occurs.
pub open spec fn names_upto(kinds: Seq<SourceKind>, j: int) -> Seq<Seq<char>>
    decreases j,
{
    if j <= 0 {
        seq![]
    } else {
        names_upto(kinds, j - 1) + repeat(
            kind_name(kinds_by_name()[j - 1]),
            kind_count(kinds, kinds_by_name()[j - 1]),
        )
    }
}

/// The names of the kinds, sorted alphabetically (each name as often as its
/// kind occurs).
pub open spec fn sorted_kind_names(kinds: Seq<SourceKind>) -> Seq<Seq<char>> {
    names_upto(kinds, 5)
}

/// The `Debug` text of an optional recency.
pub open spec fn recency_debug(r: Option<Recency>) -> Seq<char> {
    match r {
        None => "None"@,
        Some(Recency::Day) => "Some(Day)"@,
        Some(Recency::Week) => "Some(Week)"@,
        Some(Recency::Month) => "Some(Month)"@,
        Some(Recency::Year) => "Some(Year)"@,
    }
}

/// The `Debug` text of an optional instant (`Some(invalid)` for an instant
/// the calendar cannot represent).
pub open spec fn instant_opt_debug(t: Option<Timestamp>) -> Seq<char> {
    match t {
        None => "None"@,
        Some(ts) => match instant_debug_text(ts) {
            Some(text) => "Some("@ + text + ")"@,
            None => "Some(invalid)"@,
        },
    }
}

/// Whether a text holds no `|`, the separator of cache-key fields.
pub open spec fn bar_free(s: Seq<char>) -> bool {
    forall|i: int| 0 <= i < s.len() ==> s[i] != '|'
}

/// Whether an optional date is absent or an instant chrono represents
/// (one with a `Debug` text; every [`representable`] instant is one).
pub open spec fn date_representable(d: Option<Timestamp>) -> bool {
    d matches Some(t) ==> instant_debug_text(t) is Some
}

/// Whether a text is ASCII and holds no `|`.
pub open spec fn ascii_bar_free(s: Seq<char>) -> bool {
    forall|i: int| 0 <= i < s.len() ==> (#[trigger] s[i] as int) < 128 && s[i] != '|'
}

/// The queries whose cache key tells every field apart: the normalized
/// (trimmed, lowercased) text holds no `|` (as for every ASCII text without
/// `|`) and each date is representable.
pub open spec fn key_faithful(q: SearchQuery) -> bool {
    &&& (bar_free(str_lowercase(trim(q.text@))) || ascii_bar_free(q.text@))
    &&& date_representable(q.from_date)
    &&& date_representable(q.to_date)
}

/// Two queries agree on everything their cache keys record: the normalized
/// text, the sources up to order, the limit, the recency and both dates.
pub open spec fn same_key_fields(q1: SearchQuery, q2: SearchQuery) -> bool {
    &&& str_lowercase(trim(q1.text@)) == str_lowercase(trim(q2.text@))
    &&& q1.sources@.to_multiset() == q2.sources@.to_multiset()
    &&& q1.limit == q2.limit
    &&& q1.recency == q2.recency
    &&& q1.from_date == q2.from_date
    &&& q1.to_date == q2.to_date
}

/// The cache key of a query: the trimmed lowercased text, the sorted kind
/// names joined by commas, the limit, the recency and the two dates,
/// separated by `|`.
pub open spec fn cache_key_of(q: SearchQuery) -> Seq<char> {
    str_lowercase(trim(q.text@)) + "|"@ + join_by(sorted_kind_names(q.sources@), ',') + "|"@
        + decimal(q.limit as nat) + "|"@ + recency_debug(q.recency) + "|"@ + instant_opt_debug(
        q.from_date,
    ) + "|"@ + instant_opt_debug(q.to_date)
}

/// Number of occurrences of `kind`.
fn count_kind(kinds: &Vec<SourceKind>, kind: SourceKind) -> (r: usize)
    ensures
        r == kind_count(kinds@, kind),
{
    let mut c: usize = 0;
    let mut i: usize = 0;
    while i < kinds.len()
        invariant
            i <= kinds@.len(),
            c == kind_count(kinds@.take(i as int), kind),
            c <= i,
        decreases kinds@.len() - i,
    {
        assert(kinds@.take(i + 1).drop_last() =~= kinds@.take(i as int));
        reveal_with_fuel(Seq::filter, 1);
        if kinds[i] == kind {
            c += 1;
        }
        i += 1;
    }
    assert(kinds@.take(i as int) =~= kinds@);
    c
}

/// What chrono's `Debug` text is known to be for an instant: present for a
/// representable instant, made of date and time characters, and held by no
/// other instant.
pub open spec fn debug_text_faithful(t: Timestamp) -> bool {
    &&& representable(t) ==> instant_debug_text(t) is Some
    &&& match instant_debug_text(t) {
        Some(s) => {
            &&& forall|i: int| 0 <= i < s.len() ==> debug_text_char(#[trigger] s[i])
            &&& forall|u: Timestamp| #[trigger] instant_debug_text(u) == Some(s) ==> u == t
        },
        None => true,
    }
}

/// Appends the `Debug` text of an optional instant.
fn push_instant_debug(out: &mut Vec<char>, t: Option<Timestamp>)
    ensures
        final(out)@ == old(out)@ + instant_opt_debug(t),
        t matches Some(ts) ==> debug_text_faithful(ts),
{
    match t {
        None => append_chars(out, &chars_of("None")),
        Some(ts) => match instant_debug(ts) {
            Some(text) => {
                append_chars(out, &chars_of("Some("));
                append_chars(out, &chars_of(text.as_str()));
                append_chars(out, &chars_of(")"));
                assert(out@ =~= old(out)@ + ("Some("@ + text@ + ")"@));
            },
            None => append_chars(out, &chars_of("Some(invalid)")),
        },
    }
}

/// Cache key = normalized query text + sorted source kinds + limit + date conditions.
/// Where the normalized text holds no `|` and the dates are representable,
/// another query has this key exactly when it agrees on every recorded
/// field: the normalized text, the sources up to order, the limit, the
/// recency and both dates.
pub fn cache_key(q: &SearchQuery) -> (r: String)
    ensures
        r@ == cache_key_of(*q),
        key_faithful(*q) ==> forall|q2: SearchQuery|
            (#[trigger] cache_key_of(q2) == r@) <==> same_key_fields(*q, q2),
{
    let trimmed = string_of(trim_chars(&chars_of(q.text.as_str())).as_slice());
    let lowered = lowercase_str(trimmed.as_str());
    proof {
        if ascii_bar_free(q.text@) {
            lemma_trim_keeps(q.text@, |c: char| (c as int) < 128 && c != '|');
            assert forall|i: int| 0 <= i < lowered@.len() implies lowered@[i] != '|' by {
                assert((trimmed@[i] as int) < 128 && trimmed@[i] != '|');
                assert(lowered@[i] == ascii_lower(trimmed@[i]));
            }
        }
    }
    let mut out = chars_of(lowered.as_str());
    let bar = chars_of("|");
    append_chars(&mut out, &bar);
    let mut names: Vec<char> = Vec::new();
    let order = [SourceKind::Arxiv, SourceKind::Blog, SourceKind::News, SourceKind::Web, SourceKind::Youtube];
    let ghost mut pieces: Seq<Seq<char>> = seq![];
    let mut first = true;
    let ghost mut step: Seq<Seq<char>> = seq![];
    let mut oi: usize = 0;
    while oi < 5
        invariant
            oi <= 5,
            order@ == kinds_by_name(),
            names@ == join_by(pieces, ','),
            first == (pieces.len() == 0),
            pieces == names_upto(q.sources@, oi as int),
        decreases 5 - oi,
    {
        let kind = order[oi];
        let name = kind_name_chars(kind);
        let count = count_kind(&q.sources, kind);
        let mut c: usize = 0;
        let ghost start = pieces;
        while c < count
            invariant
                c <= count,
                names@ == join_by(pieces, ','),
                first == (pieces.len() == 0),
                pieces == start + repeat(name@, c as nat),
            decreases count - c,
        {
            push_piece(&mut names, Ghost(pieces), first, &name, ',');
            first = false;
            proof {
                pieces = pieces.push(name@);
            }
            c += 1;
            assert(pieces =~= start + repeat(name@, c as nat));
        }
        assert(name@ == kind_name(kinds_by_name()[oi as int]));
        oi += 1;
    }
    append_chars(&mut out, &names);
    append_chars(&mut out, &bar);
    append_chars(&mut out, &decimal_chars(q.limit as u64));
    append_chars(&mut out, &bar);
    let rec = match q.recency {
        None => chars_of("None"),
        Some(Recency::Day) => chars_of("Some(Day)"),
        Some(Recency::Week) => chars_of("Some(Week)"),
        Some(Recency::Month) => chars_of("Some(Month)"),
        Some(Recency::Year) => chars_of("Some(Year)"),
    };
    append_chars(&mut out, &rec);
    append_chars(&mut out, &bar);
    push_instant_debug(&mut out, q.from_date);
    append_chars(&mut out, &bar);
    push_instant_debug(&mut out, q.to_date);
    assert(out@ =~= cache_key_of(*q));
    proof {
        assert forall|q2: SearchQuery| key_faithful(*q) implies (#[trigger] cache_key_of(q2)
            == cache_key_of(*q)) <==> same_key_fields(*q, q2) by {
            if cache_key_of(q2) == cache_key_of(*q) {
                lemma_key_tells_fields(*q, q2);
            }
            if same_key_fields(*q, q2) {
                law_cache_key_ignores_source_order(*q, q2);
            }
        }
    }
    string_of(out.as_slice())
}

} // verus!
