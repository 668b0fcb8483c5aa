//! Properties of the library as a whole, stated over the models that the
//! functions' contracts use and proved from them.

use vstd::prelude::*;

use crate::dedup::{
    add_new_entries, add_new_sources, agree_count, band_hash, class_merge, fuse_fold, has_key,
    identity_key_of, is_base, key_index, lemma_key_index, merge_by_identity, merge_classes, merged,
    near_dup_labels, near_pair, pairs_before, pairs_from, ranked, relabel, share_band,
    signatures_of, union_labels, LSH_BANDS, MINHASH_N,
};
use crate::engine::{
    bar_free, cache_key_of, date_representable, debug_text_faithful, same_key_fields,
    found_of, instant_opt_debug, kind_count, kind_name, kinds_by_name, names_upto,
    passes_dates, recency_debug, repeat, selected_positions, sorted_kind_names, warnings_of,
    SourceOutcome,
};
use crate::fusion::freshness_tier;
use crate::model::{keys_unique, DocView, Document, Recency, SearchQuery, SourceKind, Timestamp};
use crate::normalize::{
    alnum_lower, canonical_url_of, decode_entities, is_tracking_key, strip_html_spec, strip_tags,
    title_hash_spec, without_tracking,
};
use crate::external::{char_alphanumeric, char_lowercase, debug_text_char, instant_debug_text, str_lowercase, url_query_pairs, url_with_query_pairs, url_without_query};
use crate::text::{
    collapse_ws, decimal, digit_char, is_ws, join_by, join_words, lemma_run_len_bound, run_len, trim,
    trim_end_char, words,
};
use crate::ratelimit::wait_for;
use crate::external::{chrono_days_between, rfc3339_instant, ymd_midnight};
use crate::sources::arxiv_oai::{set_field, OaiRecordView};
use crate::sources::feed_common::{
    feed_doc, feed_docs, feed_summary, feed_title, filter_terms, haystack, keyword_match, FeedEntry,
};
use crate::sources::web::{brave_doc, brave_docs, BraveResult};
use crate::sources::arxiv::{arxiv_id_of, arxiv_max_results, atom_doc, is_arxiv_step, AtomEntry, FetchStep};
use crate::sources::youtube::youtube_max_results;
use crate::sources::web::brave_count;
use crate::fusion::{authority_of, freshness_of};
use crate::error::FetchError;
use crate::sources::arxiv_oai::oai_doc;
use crate::sources::youtube::{youtube_doc, youtube_docs, YtItem};
use crate::text::occurs_in;
use crate::sources::arxiv::{backoff_factor, backoff_of};

verus! {

/// A title's hash depends only on its lowercased alphanumeric characters:
/// titles that differ in case, punctuation or spacing hash alike.
pub proof fn law_title_hash_ignores_case_and_punctuation(a: Seq<char>, b: Seq<char>)
    requires
        alnum_lower(a) == alnum_lower(b),
    ensures
        title_hash_spec(a) == title_hash_spec(b),
{
}

/// The date filter never drops a document without a publication date.
pub proof fn law_undated_documents_pass(
    recency: Option<Recency>,
    from_date: Option<Timestamp>,
    to_date: Option<Timestamp>,
    now: Timestamp,
)
    ensures
        passes_dates(None, recency, from_date, to_date, now),
{
}

/// The final selection holds at most `limit` documents, each passing the
/// date filter, in their fused order.
pub proof fn law_selection_respects_limit_and_filter(docs: Seq<Document>, q: SearchQuery, now: Timestamp)
    ensures
        selected_positions(docs, q, now).len() <= q.limit,
        forall|k: int|
            0 <= k < selected_positions(docs, q, now).len() ==> {
                let p = #[trigger] selected_positions(docs, q, now)[k];
                &&& 0 <= p < docs.len()
                &&& passes_dates(docs[p].published_at, q.recency, q.from_date, q.to_date, now)
            },
        forall|k1: int, k2: int|
            0 <= k1 < k2 < selected_positions(docs, q, now).len() ==> selected_positions(docs, q, now)[k1]
                < selected_positions(docs, q, now)[k2],
{
    let pred = |i: int| passes_dates(docs[i].published_at, q.recency, q.from_date, q.to_date, now);
    let all = Seq::new(docs.len(), |i: int| i);
    lemma_filter_increasing(all, pred, 0, docs.len() as int);
    #[allow(deprecated)]
    all.filter_lemma(pred);
}

/// Filtering an increasing sequence with values in `lo..hi` keeps it
/// increasing, with values in `lo..hi`.
proof fn lemma_filter_increasing(s: Seq<int>, pred: spec_fn(int) -> bool, lo: int, hi: int)
    requires
        forall|i: int, j: int| 0 <= i < j < s.len() ==> s[i] < s[j],
        forall|i: int| 0 <= i < s.len() ==> lo <= #[trigger] s[i] < hi,
    ensures
        forall|i: int, j: int|
            0 <= i < j < s.filter(pred).len() ==> s.filter(pred)[i] < s.filter(pred)[j],
        forall|i: int| 0 <= i < s.filter(pred).len() ==> lo <= #[trigger] s.filter(pred)[i] < hi,
    decreases s.len(),
{
    reveal_with_fuel(Seq::filter, 1);
    if s.len() > 0 {
        let t = s.drop_last();
        let last = s[s.len() - 1];
        assert forall|i: int| 0 <= i < t.len() implies lo <= #[trigger] t[i] < last by {
            assert(s[i] < s[s.len() - 1]);
        }
        lemma_filter_increasing(t, pred, lo, last);
        let f = s.filter(pred);
        let g = t.filter(pred);
        assert(f == if pred(last) {
            g.push(last)
        } else {
            g
        });
        assert forall|i: int| 0 <= i < f.len() implies lo <= #[trigger] f[i] < hi by {
            if i < g.len() {
                assert(f[i] == g[i]);
            }
        }
        assert forall|i: int, j: int| 0 <= i < j < f.len() implies f[i] < f[j] by {
            assert(f[i] == g[i]);
            if j < g.len() {
                assert(f[j] == g[j]);
            }
        }
    }
}

/// Freshness never increases with age: an older document's tier is at most
/// a newer one's, and every dated document ranks above an undated one (0).
pub proof fn law_freshness_decreases_with_age(newer_days: i64, older_days: i64)
    requires
        newer_days <= older_days,
    ensures
        freshness_tier(newer_days) >= freshness_tier(older_days),
        freshness_tier(older_days) >= 100,
{
}

/// The retry backoff never exceeds 30 seconds and never shrinks from one
/// attempt to a later one.
pub proof fn law_backoff_bounded_and_growing(base_nanos: u128, a1: u32, a2: u32)
    requires
        a1 <= a2,
    ensures
        backoff_of(base_nanos, a1) <= 30_000_000_000,
        backoff_of(base_nanos, a1) <= backoff_of(base_nanos, a2),
{
    assert(backoff_factor(a1) <= backoff_factor(a2));
    assert(base_nanos * backoff_factor(a1) <= base_nanos * backoff_factor(a2)) by (nonlinear_arith)
        requires
            backoff_factor(a1) <= backoff_factor(a2),
    ;
}

/// The wait before a request never exceeds the minimum interval, and once
/// the interval has elapsed (or nothing was sent yet) there is none.
pub proof fn law_wait_within_interval(interval_nanos: u128, since_last: Option<u128>)
    ensures
        wait_for(interval_nanos, since_last) <= interval_nanos,
        match since_last {
            Some(e) => e >= interval_nanos ==> wait_for(interval_nanos, since_last) == 0,
            None => wait_for(interval_nanos, since_last) == 0,
        },
{
}

/// Every source outcome is accounted for exactly once: as results kept or
/// as a warning, so a failing source never hides the others' results.
pub proof fn law_outcomes_all_accounted<T>(outcomes: Seq<(SourceKind, SourceOutcome<T>)>)
    ensures
        found_of(outcomes).len() + warnings_of(outcomes).len() == outcomes.len(),
    decreases outcomes.len(),
{
    if outcomes.len() > 0 {
        law_outcomes_all_accounted(outcomes.drop_last());
    }
}

/// Merging two classes of a union-find puts both elements in one class,
/// never separates elements that were together, and leaves every other
/// class as it was.
pub proof fn law_union_joins_classes(labels: Seq<int>, x: int, y: int)
    requires
        0 <= x < labels.len(),
        0 <= y < labels.len(),
    ensures
        relabel(labels, x, y).len() == labels.len(),
        relabel(labels, x, y)[x] == relabel(labels, x, y)[y],
        forall|i: int, j: int|
            0 <= i < labels.len() && 0 <= j < labels.len() && labels[i] == labels[j] ==> relabel(
                labels,
                x,
                y,
            )[i] == relabel(labels, x, y)[j],
        forall|i: int|
            0 <= i < labels.len() && labels[i] != labels[x] ==> relabel(labels, x, y)[i] == labels[i],
{
}

/// The number of rank positions recorded over all fused entries.
pub open spec fn hit_count(hits: Seq<Seq<(usize, usize)>>) -> nat
    decreases hits.len(),
{
    if hits.len() == 0 {
        0
    } else {
        hit_count(hits.drop_last()) + hits.last().len()
    }
}

proof fn lemma_hit_count_add_one(hits: Seq<Seq<(usize, usize)>>, i: int, x: (usize, usize))
    requires
        0 <= i < hits.len(),
    ensures
        hit_count(hits.update(i, hits[i].push(x))) == hit_count(hits) + 1,
    decreases hits.len(),
{
    let u = hits.update(i, hits[i].push(x));
    if i == hits.len() - 1 {
        assert(u.drop_last() =~= hits.drop_last());
    } else {
        lemma_hit_count_add_one(hits.drop_last(), i, x);
        assert(u.drop_last() =~= hits.drop_last().update(i, hits.drop_last()[i].push(x)));
    }
}

/// The documents of positioned items.
pub open spec fn item_docs(items: Seq<(usize, usize, DocView)>) -> Seq<DocView> {
    items.map_values(|x: (usize, usize, DocView)| x.2)
}

#[verifier::spinoff_prover]
proof fn lemma_fuse_fold_merges(items: Seq<(usize, usize, DocView)>)
    ensures
        fuse_fold(items).0 == merge_by_identity(item_docs(items)).0,
        fuse_fold(items).1 == merge_by_identity(item_docs(items)).1,
        fuse_fold(items).0.len() == fuse_fold(items).1.len(),
        fuse_fold(items).2.len() == fuse_fold(items).1.len(),
        hit_count(fuse_fold(items).2) == items.len(),
        forall|i: int| 0 <= i < fuse_fold(items).2.len() ==> #[trigger] fuse_fold(items).2[i].len() >= 1,
    decreases items.len(),
{
    if items.len() > 0 {
        let prev = items.drop_last();
        lemma_fuse_fold_merges(prev);
        assert(item_docs(items).drop_last() =~= item_docs(prev));
        let st = fuse_fold(prev);
        let item = items.last();
        let k = identity_key_of(item.2.identity);
        lemma_key_index(st.0, k);
        let i = key_index(st.0, k);
        if i >= 0 {
            lemma_hit_count_add_one(st.2, i, (item.0, item.1));
        } else {
            assert(st.2.push(seq![(item.0, item.1)]).drop_last() =~= st.2);
        }
        let nx = fuse_fold(items);
        assert forall|j: int| 0 <= j < nx.2.len() implies #[trigger] nx.2[j].len() >= 1 by {
            if j < st.2.len() {
                assert(j != i ==> nx.2[j] == st.2[j]);
            }
        }
    }
}

proof fn lemma_ranked_docs(lists: Seq<Seq<DocView>>)
    ensures
        item_docs(ranked(lists)) == lists.flatten_alt(),
    decreases lists.len(),
{
    if lists.len() > 0 {
        let dl = lists.drop_last();
        lemma_ranked_docs(dl);
        let tail = Seq::new(
            lists.last().len(),
            |r: int| ((lists.len() - 1) as usize, r as usize, lists.last()[r]),
        );
        assert(item_docs(ranked(dl) + tail) =~= item_docs(ranked(dl)) + item_docs(tail));
        assert(item_docs(tail) =~= lists.last());
    }
}

/// Rank fusion merges documents exactly as identity deduplication of all
/// per-source lists, concatenated in order, would; and every document of
/// every list contributes exactly one rank position, to exactly one fused
/// entry (so a document found by several sources gathers several ranks).
pub proof fn law_fusion_is_dedup_of_all_lists(lists: Seq<Seq<DocView>>)
    ensures
        fuse_fold(ranked(lists)).1 == merge_by_identity(lists.flatten()).1,
        fuse_fold(ranked(lists)).2.len() == fuse_fold(ranked(lists)).1.len(),
        hit_count(fuse_fold(ranked(lists)).2) == lists.flatten().len(),
        forall|i: int|
            0 <= i < fuse_fold(ranked(lists)).2.len() ==> #[trigger] fuse_fold(ranked(lists)).2[i].len()
                >= 1,
{
    lemma_fuse_fold_merges(ranked(lists));
    lemma_ranked_docs(lists);
    lists.lemma_flatten_and_flatten_alt_are_equivalent();
}

/// Identity deduplication leaves one entry per identity: the entries'
/// keys are pairwise distinct, every input's key has an entry, there are
/// never more entries than inputs, and each entry carries the title, URL
/// and source of the first document with its key.
#[verifier::spinoff_prover]
pub proof fn law_dedup_one_entry_per_identity(docs: Seq<DocView>)
    ensures
        merge_by_identity(docs).0.len() == merge_by_identity(docs).1.len(),
        merge_by_identity(docs).1.len() <= docs.len(),
        forall|i: int, j: int|
            0 <= i < j < merge_by_identity(docs).0.len() ==> merge_by_identity(docs).0[i]
                != merge_by_identity(docs).0[j],
        forall|i: int|
            0 <= i < docs.len() ==> merge_by_identity(docs).0.contains(
                identity_key_of(#[trigger] docs[i].identity),
            ),
        forall|j: int|
            0 <= j < merge_by_identity(docs).1.len() ==> exists|i: int|
                0 <= i < docs.len() && merge_by_identity(docs).0[j] == identity_key_of(
                    docs[i].identity,
                ) && (#[trigger] merge_by_identity(docs).1[j]).title == docs[i].title
                    && merge_by_identity(docs).1[j].url == docs[i].url
                    && merge_by_identity(docs).1[j].source == docs[i].source,
    decreases docs.len(),
{
    if docs.len() > 0 {
        let prev = docs.drop_last();
        law_dedup_one_entry_per_identity(prev);
        let st = merge_by_identity(prev);
        let d = docs.last();
        let k = identity_key_of(d.identity);
        lemma_key_index(st.0, k);
        let ix = key_index(st.0, k);
        let nx = merge_by_identity(docs);
        assert forall|i: int| 0 <= i < docs.len() implies nx.0.contains(
            identity_key_of(#[trigger] docs[i].identity),
        ) by {
            if i < docs.len() - 1 {
                assert(prev[i] == docs[i]);
                let m = choose|m: int| 0 <= m < st.0.len() && st.0[m] == identity_key_of(prev[i].identity);
                assert(nx.0[m] == st.0[m]);
            } else if ix >= 0 {
                assert(nx.0[ix] == k);
            } else {
                assert(nx.0[st.0.len() as int] == k);
            }
        }
        assert forall|j: int| 0 <= j < nx.1.len() implies exists|i: int|
            0 <= i < docs.len() && nx.0[j] == identity_key_of(docs[i].identity)
                && (#[trigger] nx.1[j]).title == docs[i].title && nx.1[j].url == docs[i].url
                && nx.1[j].source == docs[i].source by {
            if j < st.1.len() {
                let i = choose|i: int|
                    0 <= i < prev.len() && st.0[j] == identity_key_of(prev[i].identity)
                        && (#[trigger] st.1[j]).title == prev[i].title && st.1[j].url == prev[i].url
                        && st.1[j].source == prev[i].source;
                assert(prev[i] == docs[i]);
            } else {
                assert(nx.1[j] == d);
                assert(docs[docs.len() - 1] == d);
            }
        }
    }
}

/// The identity keys of documents, in order.
pub open spec fn identity_keys(docs: Seq<DocView>) -> Seq<Seq<char>> {
    docs.map_values(|d: DocView| identity_key_of(d.identity))
}

/// Merging a document with the same identity key keeps the base's key:
/// keys of different kinds (`doi:`, `arxiv:`, `url:`, `title:`) never
/// coincide, so the merged-in document lacks every identifier the base
/// lacks.
proof fn lemma_merged_keeps_key(base: DocView, other: DocView)
    requires
        identity_key_of(other.identity) == identity_key_of(base.identity),
    ensures
        identity_key_of(merged(base, other).identity) == identity_key_of(base.identity),
{
    reveal_strlit("doi:");
    reveal_strlit("arxiv:");
    reveal_strlit("url:");
    reveal_strlit("title:");
    let kb = identity_key_of(base.identity);
    let ko = identity_key_of(other.identity);
    assert(kb[0] == ko[0]);
    if base.identity.doi is None {
        if other.identity.doi is Some {
            assert(ko[0] == 'd');
        }
        if base.identity.arxiv_id is None {
            if other.identity.arxiv_id is Some && other.identity.doi is None {
                assert(ko[0] == 'a');
            }
            if base.identity.canonical_url is None && other.identity.doi is None
                && other.identity.arxiv_id is None && other.identity.canonical_url is Some {
                assert(ko[0] == 'u');
            }
        }
    }
}

/// Every entry of identity merging carries the key it is filed under.
proof fn lemma_entries_keep_keys(docs: Seq<DocView>)
    ensures
        merge_by_identity(docs).0.len() == merge_by_identity(docs).1.len(),
        identity_keys(merge_by_identity(docs).1) == merge_by_identity(docs).0,
    decreases docs.len(),
{
    if docs.len() > 0 {
        let prev = docs.drop_last();
        lemma_entries_keep_keys(prev);
        let st = merge_by_identity(prev);
        let d = docs.last();
        let k = identity_key_of(d.identity);
        lemma_key_index(st.0, k);
        let ix = key_index(st.0, k);
        let nx = merge_by_identity(docs);
        if ix >= 0 {
            assert(identity_keys(st.1)[ix] == st.0[ix]);
            lemma_merged_keeps_key(st.1[ix], d);
            assert(identity_keys(nx.1) =~= nx.0) by {
                assert forall|j: int| 0 <= j < nx.1.len() implies #[trigger] identity_keys(nx.1)[j]
                    == nx.0[j] by {
                    assert(identity_keys(st.1)[j] == st.0[j]);
                }
            }
        } else {
            assert(identity_keys(nx.1) =~= nx.0) by {
                assert forall|j: int| 0 <= j < nx.1.len() implies #[trigger] identity_keys(nx.1)[j]
                    == nx.0[j] by {
                    if j < st.1.len() {
                        assert(identity_keys(st.1)[j] == st.0[j]);
                    }
                }
            }
        }
    }
}

/// Documents whose identity keys are pairwise distinct pass identity
/// merging unchanged.
proof fn lemma_distinct_keys_unchanged(xs: Seq<DocView>)
    requires
        forall|i: int, j: int|
            0 <= i < j < xs.len() ==> identity_key_of(#[trigger] xs[i].identity) != identity_key_of(
                #[trigger] xs[j].identity,
            ),
    ensures
        merge_by_identity(xs) == (identity_keys(xs), xs),
    decreases xs.len(),
{
    if xs.len() == 0 {
        assert(identity_keys(xs) =~= Seq::<Seq<char>>::empty());
        assert(xs =~= Seq::<DocView>::empty());
    } else {
        let dl = xs.drop_last();
        assert forall|i: int, j: int| 0 <= i < j < dl.len() implies identity_key_of(
            #[trigger] dl[i].identity,
        ) != identity_key_of(#[trigger] dl[j].identity) by {
            assert(dl[i] == xs[i] && dl[j] == xs[j]);
        }
        lemma_distinct_keys_unchanged(dl);
        let k = identity_key_of(xs.last().identity);
        let ks = identity_keys(dl);
        lemma_key_index(ks, k);
        if key_index(ks, k) >= 0 {
            let m = key_index(ks, k);
            assert(ks[m] == identity_key_of(dl[m].identity));
            assert(xs[m] == dl[m]);
            assert(xs[xs.len() - 1] == xs.last());
        }
        assert(ks.push(k) =~= identity_keys(xs));
        assert(dl.push(xs.last()) =~= xs);
    }
}

/// Identity deduplication is idempotent: deduplicating its own output
/// changes nothing, since every entry keeps the key it was filed under and
/// the entries' keys are pairwise distinct.
pub proof fn law_dedup_idempotent(docs: Seq<DocView>)
    ensures
        merge_by_identity(merge_by_identity(docs).1) == merge_by_identity(docs),
{
    let st = merge_by_identity(docs);
    law_dedup_one_entry_per_identity(docs);
    lemma_entries_keep_keys(docs);
    assert forall|i: int, j: int| 0 <= i < j < st.1.len() implies identity_key_of(
        #[trigger] st.1[i].identity,
    ) != identity_key_of(#[trigger] st.1[j].identity) by {
        assert(identity_keys(st.1)[i] == st.0[i]);
        assert(identity_keys(st.1)[j] == st.0[j]);
    }
    lemma_distinct_keys_unchanged(st.1);
}

#[verifier::spinoff_prover]
proof fn lemma_add_new_sources(acc: Seq<SourceKind>, xs: Seq<SourceKind>)
    ensures
        add_new_sources(acc, xs).len() >= acc.len(),
        add_new_sources(acc, xs).take(acc.len() as int) == acc,
        forall|k: SourceKind| acc.contains(k) ==> add_new_sources(acc, xs).contains(k),
        forall|k: SourceKind| xs.contains(k) ==> add_new_sources(acc, xs).contains(k),
        forall|k: SourceKind|
            add_new_sources(acc, xs).contains(k) ==> acc.contains(k) || xs.contains(k),
        acc.no_duplicates() ==> add_new_sources(acc, xs).no_duplicates(),
    decreases xs.len(),
{
    if xs.len() > 0 {
        let a2 = if acc.contains(xs[0]) {
            acc
        } else {
            acc.push(xs[0])
        };
        lemma_add_new_sources(a2, xs.drop_first());
        let r = add_new_sources(acc, xs);
        assert(r == add_new_sources(a2, xs.drop_first()));
        assert(a2.take(acc.len() as int) =~= acc);
        assert(r.take(acc.len() as int) =~= a2.take(acc.len() as int)) by {
            assert(r.take(a2.len() as int) == a2);
        }
        assert forall|k: SourceKind| acc.contains(k) implies a2.contains(k) by {
            let m = choose|m: int| 0 <= m < acc.len() && acc[m] == k;
            assert(a2[m] == k);
        }
        assert(a2.contains(xs[0])) by {
            if !acc.contains(xs[0]) {
                assert(a2[acc.len() as int] == xs[0]);
            }
        }
        assert forall|k: SourceKind| xs.contains(k) implies r.contains(k) by {
            let m = choose|m: int| 0 <= m < xs.len() && xs[m] == k;
            if m > 0 {
                assert(xs.drop_first()[m - 1] == k);
                assert(xs.drop_first().contains(k));
            } else {
                assert(a2.contains(k));
            }
        }
        assert forall|k: SourceKind| r.contains(k) implies acc.contains(k) || xs.contains(k) by {
            if xs.drop_first().contains(k) {
                let m = choose|m: int| 0 <= m < xs.drop_first().len() && xs.drop_first()[m] == k;
                assert(xs[m + 1] == k);
            } else if a2.contains(k) && !acc.contains(k) {
                let m = choose|m: int| 0 <= m < a2.len() && a2[m] == k;
                assert(xs[0] == k);
            }
        }
        if acc.no_duplicates() && !acc.contains(xs[0]) {
            assert(a2.no_duplicates()) by {
                assert forall|i: int, j: int| 0 <= i < a2.len() && 0 <= j < a2.len() && i != j implies a2[i]
                    != a2[j] by {
                    if i == acc.len() {
                        assert(!acc.contains(a2[i]));
                        assert(a2[j] == acc[j]);
                    } else if j == acc.len() {
                        assert(!acc.contains(a2[j]));
                        assert(a2[i] == acc[i]);
                    }
                }
            }
        }
    }
}

#[verifier::spinoff_prover]
proof fn lemma_add_new_entries(
    acc: Seq<(Seq<char>, serde_json::Value)>,
    xs: Seq<(Seq<char>, serde_json::Value)>,
)
    ensures
        add_new_entries(acc, xs).take(acc.len() as int) == acc,
        add_new_entries(acc, xs).len() >= acc.len(),
        forall|j: int| 0 <= j < xs.len() ==> has_key(add_new_entries(acc, xs), #[trigger] xs[j].0),
        keys_unique(acc) ==> keys_unique(add_new_entries(acc, xs)),
    decreases xs.len(),
{
    if xs.len() > 0 {
        let a2 = if has_key(acc, xs[0].0) {
            acc
        } else {
            acc.push(xs[0])
        };
        lemma_add_new_entries(a2, xs.drop_first());
        let r = add_new_entries(acc, xs);
        assert(r == add_new_entries(a2, xs.drop_first()));
        assert(r.take(acc.len() as int) =~= a2.take(acc.len() as int)) by {
            assert(r.take(a2.len() as int) == a2);
        }
        assert(a2.take(acc.len() as int) =~= acc);
        assert(has_key(a2, xs[0].0)) by {
            if !has_key(acc, xs[0].0) {
                assert(a2[acc.len() as int].0 == xs[0].0);
            }
        }
        assert(has_key(r, xs[0].0)) by {
            let m = choose|m: int| 0 <= m < a2.len() && (#[trigger] a2[m]).0 == xs[0].0;
            assert(r[m] == a2[m]) by {
                assert(r.take(a2.len() as int)[m] == r[m]);
            }
        }
        assert forall|j: int| 0 <= j < xs.len() implies has_key(r, #[trigger] xs[j].0) by {
            if j > 0 {
                assert(xs.drop_first()[j - 1] == xs[j]);
            }
        }
        if keys_unique(acc) && !has_key(acc, xs[0].0) {
            assert(keys_unique(a2)) by {
                assert forall|i: int, j: int| 0 <= i < j < a2.len() implies a2[i].0 != a2[j].0 by {
                    if j == acc.len() {
                        assert(a2[i] == acc[i]);
                        if a2[i].0 == a2[j].0 {
                            assert(has_key(acc, xs[0].0));
                        }
                    }
                }
            }
        }
    }
}

/// Merging a duplicate keeps the base document's title, URL and source,
/// keeps its contributing sources first and in order, adds every source of
/// the duplicate, invents none, and repeats none when the base had none
/// repeated; its metadata keeps the base's entries (the base's value wins
/// for a shared key), gains an entry for every key of the duplicate, and
/// stays a map (no key twice).
pub proof fn law_merge_accumulates_sources(base: DocView, other: DocView)
    ensures
        merged(base, other).title == base.title,
        merged(base, other).url == base.url,
        merged(base, other).source == base.source,
        merged(base, other).sources.take(base.sources.len() as int) == base.sources,
        forall|k: SourceKind| base.sources.contains(k) ==> merged(base, other).sources.contains(k),
        forall|k: SourceKind| other.sources.contains(k) ==> merged(base, other).sources.contains(k),
        forall|k: SourceKind|
            merged(base, other).sources.contains(k) ==> base.sources.contains(k)
                || other.sources.contains(k),
        base.sources.no_duplicates() ==> merged(base, other).sources.no_duplicates(),
        merged(base, other).extra.take(base.extra.len() as int) == base.extra,
        forall|j: int|
            0 <= j < other.extra.len() ==> has_key(merged(base, other).extra, #[trigger] other.extra[j].0),
        keys_unique(base.extra) ==> keys_unique(merged(base, other).extra),
{
    lemma_add_new_sources(base.sources, other.sources);
    lemma_add_new_entries(base.extra, other.extra);
}

proof fn lemma_run_len_stops_at_ws(x: Seq<char>, rest: Seq<char>)
    requires
        rest.len() == 0 || is_ws(rest[0]),
    ensures
        run_len(x + rest) == run_len(x),
    decreases x.len(),
{
    if x.len() > 0 {
        assert((x + rest)[0] == x[0]);
        assert((x + rest).drop_first() =~= x.drop_first() + rest);
        lemma_run_len_stops_at_ws(x.drop_first(), rest);
    } else {
        assert(x + rest =~= rest);
    }
}

proof fn lemma_run_chars(s: Seq<char>)
    ensures
        forall|i: int| 0 <= i < run_len(s) ==> !is_ws(#[trigger] s[i]),
        run_len(s) < s.len() ==> is_ws(s[run_len(s) as int]),
    decreases s.len(),
{
    if s.len() > 0 && !is_ws(s[0]) {
        lemma_run_len_bound(s);
        lemma_run_chars(s.drop_first());
        assert forall|i: int| 0 <= i < run_len(s) implies !is_ws(#[trigger] s[i]) by {
            if i > 0 {
                assert(s[i] == s.drop_first()[i - 1]);
            }
        }
    }
}

#[verifier::spinoff_prover]
proof fn lemma_words_split(x: Seq<char>, rest: Seq<char>)
    requires
        rest.len() == 0 || is_ws(rest[0]),
    ensures
        words(x + rest) == words(x) + words(rest),
    decreases x.len(),
{
    if x.len() == 0 {
        assert(x + rest =~= rest);
        assert(words(x) + words(rest) =~= words(rest));
    } else if is_ws(x[0]) {
        assert((x + rest)[0] == x[0]);
        assert((x + rest).drop_first() =~= x.drop_first() + rest);
        lemma_words_split(x.drop_first(), rest);
    } else {
        assert((x + rest)[0] == x[0]);
        lemma_run_len_stops_at_ws(x, rest);
        lemma_run_len_bound(x);
        let r = run_len(x) as int;
        assert((x + rest).take(r) =~= x.take(r));
        assert((x + rest).skip(r) =~= x.skip(r) + rest);
        lemma_words_split(x.skip(r), rest);
        assert(seq![x.take(r)] + (words(x.skip(r)) + words(rest)) =~= (seq![x.take(r)] + words(x.skip(r)))
            + words(rest));
    }
}

/// Whether a word is non-empty and free of whitespace.
pub open spec fn is_word(w: Seq<char>) -> bool {
    w.len() > 0 && forall|i: int| 0 <= i < w.len() ==> !is_ws(#[trigger] w[i])
}

proof fn lemma_words_are_words(s: Seq<char>)
    ensures
        forall|i: int| 0 <= i < words(s).len() ==> is_word(#[trigger] words(s)[i]),
    decreases s.len(),
{
    if s.len() > 0 {
        if is_ws(s[0]) {
            lemma_words_are_words(s.drop_first());
            assert(words(s) == words(s.drop_first()));
        } else {
            lemma_run_len_bound(s);
            lemma_run_chars(s);
            let r = run_len(s) as int;
            lemma_words_are_words(s.skip(r));
            let w = s.take(r);
            assert(is_word(w)) by {
                assert forall|i: int| 0 <= i < w.len() implies !is_ws(#[trigger] w[i]) by {
                    assert(w[i] == s[i]);
                }
            }
            assert(words(s) == seq![w] + words(s.skip(r)));
            assert forall|i: int| 0 <= i < words(s).len() implies is_word(#[trigger] words(s)[i]) by {
                if i == 0 {
                    assert(words(s)[0] == w);
                } else {
                    assert(words(s)[i] == words(s.skip(r))[i - 1]);
                }
            }
        }
    }
}

proof fn lemma_word_alone(w: Seq<char>)
    requires
        is_word(w),
    ensures
        words(w) == seq![w],
{
    lemma_run_len_full(w);
    assert(!is_ws(w[0]));
    assert(w.take(w.len() as int) =~= w);
    assert(words(w) == seq![w.take(w.len() as int)] + words(w.skip(w.len() as int)));
    assert(words(Seq::<char>::empty()) =~= Seq::<Seq<char>>::empty());
    assert(w.skip(w.len() as int) =~= Seq::<char>::empty());
    assert(seq![w] + Seq::<Seq<char>>::empty() =~= seq![w]);
}

proof fn lemma_run_len_full(w: Seq<char>)
    requires
        forall|i: int| 0 <= i < w.len() ==> !is_ws(#[trigger] w[i]),
    ensures
        run_len(w) == w.len(),
    decreases w.len(),
{
    if w.len() > 0 {
        assert forall|i: int| 0 <= i < w.drop_first().len() implies !is_ws(#[trigger] w.drop_first()[i]) by {
            assert(w.drop_first()[i] == w[i + 1]);
        }
        lemma_run_len_full(w.drop_first());
    }
}

proof fn lemma_words_of_joined(ws: Seq<Seq<char>>)
    requires
        forall|i: int| 0 <= i < ws.len() ==> is_word(#[trigger] ws[i]),
    ensures
        words(join_words(ws)) == ws,
    decreases ws.len(),
{
    if ws.len() == 0 {
        assert(words(Seq::<char>::empty()) =~= Seq::<Seq<char>>::empty());
    } else if ws.len() == 1 {
        lemma_word_alone(ws[0]);
        assert(seq![ws[0]] =~= ws);
    } else {
        let dl = ws.drop_last();
        assert forall|i: int| 0 <= i < dl.len() implies is_word(#[trigger] dl[i]) by {
            assert(dl[i] == ws[i]);
        }
        lemma_words_of_joined(dl);
        let tail = seq![' '] + ws.last();
        assert(join_words(ws) =~= join_words(dl) + tail);
        assert(is_ws(' '));
        lemma_words_split(join_words(dl), tail);
        assert(tail.drop_first() =~= ws.last());
        assert(is_word(ws[ws.len() - 1]));
        lemma_word_alone(ws.last());
        assert(dl + seq![ws.last()] =~= ws);
    }
}

/// Collapsing whitespace is idempotent: a normalized title (or a cleaned
/// summary) normalizes to itself.
pub proof fn law_collapse_whitespace_idempotent(s: Seq<char>)
    ensures
        collapse_ws(collapse_ws(s)) == collapse_ws(s),
        collapse_ws(strip_html_spec(s)) == strip_html_spec(s),
{
    lemma_words_are_words(s);
    lemma_words_of_joined(words(s));
    let d = decode_entities(strip_tags(s, false));
    lemma_words_are_words(d);
    lemma_words_of_joined(words(d));
}

/// The kept characters of a concatenation are those of each part, in order.
proof fn lemma_alnum_lower_append(a: Seq<char>, b: Seq<char>)
    ensures
        alnum_lower(a + b) == alnum_lower(a) + alnum_lower(b),
    decreases b.len(),
{
    if b.len() == 0 {
        assert(a + b =~= a);
        assert(alnum_lower(a) + alnum_lower(b) =~= alnum_lower(a));
    } else {
        assert((a + b).drop_last() =~= a + b.drop_last());
        assert((a + b).last() == b.last());
        lemma_alnum_lower_append(a, b.drop_last());
        let tail = if !is_ws(b.last()) && char_alphanumeric(b.last()) {
            char_lowercase(b.last())
        } else {
            seq![]
        };
        assert(alnum_lower(a + b) == alnum_lower(a + b.drop_last()) + tail);
        assert(alnum_lower(b) == alnum_lower(b.drop_last()) + tail);
        assert((alnum_lower(a) + alnum_lower(b.drop_last())) + tail =~= alnum_lower(a) + (
        alnum_lower(b.drop_last()) + tail));
    }
}

/// A whitespace character keeps nothing.
proof fn lemma_alnum_lower_ws(c: char)
    requires
        is_ws(c),
    ensures
        alnum_lower(seq![c]) == Seq::<char>::empty(),
{
    let x: Seq<char> = seq![c];
    assert(x.drop_last() =~= Seq::<char>::empty());
    assert(x.last() == c);
    assert(alnum_lower(Seq::<char>::empty()) == Seq::<char>::empty());
    assert(alnum_lower(x) == alnum_lower(x.drop_last()) + Seq::<char>::empty());
    assert(Seq::<char>::empty() + Seq::<char>::empty() =~= Seq::<char>::empty());
}

/// The kept characters of each word in turn, concatenated.
pub open spec fn alnum_of_words(ws: Seq<Seq<char>>) -> Seq<char>
    decreases ws.len(),
{
    if ws.len() == 0 {
        seq![]
    } else {
        alnum_lower(ws[0]) + alnum_of_words(ws.drop_first())
    }
}

proof fn lemma_alnum_of_words_last(ws: Seq<Seq<char>>)
    requires
        ws.len() > 0,
    ensures
        alnum_of_words(ws) == alnum_of_words(ws.drop_last()) + alnum_lower(ws.last()),
    decreases ws.len(),
{
    if ws.len() == 1 {
        assert(ws.drop_first() =~= Seq::<Seq<char>>::empty());
        assert(ws.drop_last() =~= Seq::<Seq<char>>::empty());
        assert(alnum_lower(ws[0]) + Seq::<char>::empty() =~= alnum_lower(ws[0]));
        assert(Seq::<char>::empty() + alnum_lower(ws[0]) =~= alnum_lower(ws[0]));
    } else {
        let df = ws.drop_first();
        lemma_alnum_of_words_last(df);
        assert(df.drop_last() =~= ws.drop_last().drop_first());
        assert(ws.drop_last()[0] == ws[0]);
        assert(df.last() == ws.last());
        assert(alnum_lower(ws[0]) + (alnum_of_words(df.drop_last()) + alnum_lower(ws.last())) =~= (
        alnum_lower(ws[0]) + alnum_of_words(df.drop_last())) + alnum_lower(ws.last()));
    }
}

/// Keeping the alphanumeric characters of a text keeps those of its words.
proof fn lemma_alnum_lower_words(s: Seq<char>)
    ensures
        alnum_lower(s) == alnum_of_words(words(s)),
    decreases s.len(),
{
    if s.len() > 0 {
        if is_ws(s[0]) {
            assert(s =~= seq![s[0]] + s.drop_first());
            lemma_alnum_lower_append(seq![s[0]], s.drop_first());
            lemma_alnum_lower_ws(s[0]);
            lemma_alnum_lower_words(s.drop_first());
            assert(Seq::<char>::empty() + alnum_lower(s.drop_first()) =~= alnum_lower(s.drop_first()));
        } else {
            lemma_run_len_bound(s);
            let r = run_len(s) as int;
            assert(s =~= s.take(r) + s.skip(r));
            lemma_alnum_lower_append(s.take(r), s.skip(r));
            lemma_alnum_lower_words(s.skip(r));
            let ws = seq![s.take(r)] + words(s.skip(r));
            assert(words(s) == ws);
            assert(ws[0] == s.take(r));
            assert(ws.drop_first() =~= words(s.skip(r)));
        }
    }
}

/// Keeping the alphanumeric characters of words joined by spaces keeps
/// those of the words.
proof fn lemma_alnum_lower_joined(ws: Seq<Seq<char>>)
    ensures
        alnum_lower(join_words(ws)) == alnum_of_words(ws),
    decreases ws.len(),
{
    if ws.len() == 1 {
        assert(ws.drop_first() =~= Seq::<Seq<char>>::empty());
        assert(alnum_of_words(ws.drop_first()) == Seq::<char>::empty());
        assert(alnum_lower(ws[0]) + Seq::<char>::empty() =~= alnum_lower(ws[0]));
        assert(join_words(ws) == ws[0]);
    } else if ws.len() > 1 {
        let dl = ws.drop_last();
        lemma_alnum_lower_joined(dl);
        lemma_alnum_of_words_last(ws);
        let sp: Seq<char> = seq![' '];
        assert(join_words(ws) == join_words(dl) + sp + ws.last());
        lemma_alnum_lower_append(join_words(dl) + sp, ws.last());
        lemma_alnum_lower_append(join_words(dl), sp);
        assert(is_ws(' '));
        lemma_alnum_lower_ws(' ');
        assert(alnum_lower(join_words(dl)) + Seq::<char>::empty() =~= alnum_lower(join_words(dl)));
        assert(alnum_lower(join_words(dl) + sp) == alnum_of_words(dl));
        assert(alnum_lower(join_words(ws)) == alnum_of_words(dl) + alnum_lower(ws.last()));
    } else {
        assert(join_words(ws) == Seq::<char>::empty());
        assert(alnum_lower(Seq::<char>::empty()) == Seq::<char>::empty());
    }
}

/// Whitespace never enters a title's hash: a title and its whitespace-
/// normalized form hash alike, so `title_hash(normalize_title(t))` equals
/// `title_hash(t)`.
pub proof fn law_title_hash_ignores_whitespace(t: Seq<char>)
    ensures
        alnum_lower(collapse_ws(t)) == alnum_lower(t),
        title_hash_spec(collapse_ws(t)) == title_hash_spec(t),
{
    lemma_alnum_lower_words(t);
    lemma_alnum_lower_joined(words(t));
}

proof fn lemma_class_merge_keeps_base(docs: Seq<DocView>, labels: Seq<int>, b: int, upto: int)
    ensures
        class_merge(docs, labels, b, upto).title == docs[b].title,
        class_merge(docs, labels, b, upto).url == docs[b].url,
        class_merge(docs, labels, b, upto).source == docs[b].source,
    decreases upto - b,
{
    if upto > b + 1 {
        lemma_class_merge_keeps_base(docs, labels, b, upto - 1);
    }
}

/// Near-duplicate merging never adds documents, keeps the top-ranked
/// document first, and every document it returns is led by the
/// highest-ranked (lowest-index) member of its class, whose title, URL and
/// source it keeps. Without near duplicates (distinct labels) nothing
/// changes.
#[verifier::spinoff_prover]
pub proof fn law_near_merge_keeps_leaders(docs: Seq<DocView>, labels: Seq<int>)
    requires
        labels.len() == docs.len(),
    ensures
        merge_classes(docs, labels).len() <= docs.len(),
        docs.len() > 0 ==> merge_classes(docs, labels).len() > 0 && merge_classes(docs, labels)[0].title
            == docs[0].title && merge_classes(docs, labels)[0].url == docs[0].url,
        forall|j: int|
            0 <= j < merge_classes(docs, labels).len() ==> exists|b: int|
                0 <= b < docs.len() && is_base(labels, b) && (#[trigger] merge_classes(docs, labels)[j]).title
                    == docs[b].title && merge_classes(docs, labels)[j].url == docs[b].url
                    && merge_classes(docs, labels)[j].source == docs[b].source,
        (forall|i: int, j: int| 0 <= i < j < labels.len() ==> labels[i] != labels[j]) ==> merge_classes(
            docs,
            labels,
        ) == docs,
{
    let n = docs.len();
    let all = Seq::new(n, |i: int| i);
    let pred = |i: int| is_base(labels, i);
    let bases = all.filter(pred);
    #[allow(deprecated)]
    all.filter_lemma(pred);
    lemma_filter_increasing(all, pred, 0, n as int);
    let out = merge_classes(docs, labels);
    assert(out.len() == bases.len());
    if n > 0 {
        let tail = Seq::new((n - 1) as nat, |i: int| i + 1);
        assert(all =~= seq![0int] + tail);
        tail.lemma_filter_prepend(0int, pred);
        assert(pred(0int));
        assert(bases[0] == 0);
        lemma_class_merge_keeps_base(docs, labels, 0, n as int);
    }
    assert forall|j: int| 0 <= j < out.len() implies exists|b: int|
        0 <= b < docs.len() && is_base(labels, b) && (#[trigger] out[j]).title == docs[b].title
            && out[j].url == docs[b].url && out[j].source == docs[b].source by {
        let b = bases[j];
        assert(pred(b));
        lemma_class_merge_keeps_base(docs, labels, b, n as int);
    }
    if forall|i: int, j: int| 0 <= i < j < labels.len() ==> labels[i] != labels[j] {
        assert forall|i: int| 0 <= i < n implies pred(#[trigger] all[i]) by {
            assert forall|j: int| 0 <= j < i implies labels[j] != labels[i] by {}
        }
        lemma_filter_all(all, pred);
        assert forall|b: int| 0 <= b < n implies class_merge(docs, labels, b, n as int) == docs[b] by {
            lemma_class_merge_alone(docs, labels, b, n as int);
        }
        assert(out =~= docs);
    }
}

proof fn lemma_filter_all(s: Seq<int>, pred: spec_fn(int) -> bool)
    requires
        forall|i: int| 0 <= i < s.len() ==> pred(#[trigger] s[i]),
    ensures
        s.filter(pred) == s,
    decreases s.len(),
{
    reveal_with_fuel(Seq::filter, 1);
    if s.len() > 0 {
        lemma_filter_all(s.drop_last(), pred);
        assert(pred(s[s.len() - 1]));
        assert(s.drop_last().push(s.last()) =~= s);
    }
}

proof fn lemma_class_merge_alone(docs: Seq<DocView>, labels: Seq<int>, b: int, upto: int)
    requires
        0 <= b,
        upto <= labels.len(),
        forall|i: int, j: int| 0 <= i < j < labels.len() ==> labels[i] != labels[j],
    ensures
        class_merge(docs, labels, b, upto) == docs[b],
    decreases upto - b,
{
    if upto > b + 1 {
        lemma_class_merge_alone(docs, labels, b, upto - 1);
        assert(labels[b] != labels[upto - 1]);
    }
}

proof fn lemma_kind_count_is_multiplicity(kinds: Seq<SourceKind>, k: SourceKind)
    ensures
        kind_count(kinds, k) == kinds.to_multiset().count(k),
    decreases kinds.len(),
{
    broadcast use vstd::seq_lib::group_to_multiset_ensures;

    reveal_with_fuel(Seq::filter, 1);
    if kinds.len() == 0 {
        assert(kinds.to_multiset().len() == 0);
    } else {
        let dl = kinds.drop_last();
        lemma_kind_count_is_multiplicity(dl, k);
        assert(dl.push(kinds.last()) =~= kinds);
        assert(kinds.to_multiset() =~= dl.to_multiset().insert(kinds.last()));
    }
}

proof fn lemma_names_upto_by_counts(k1: Seq<SourceKind>, k2: Seq<SourceKind>, j: int)
    requires
        forall|k: SourceKind| kind_count(k1, k) == kind_count(k2, k),
    ensures
        names_upto(k1, j) == names_upto(k2, j),
    decreases j,
{
    if j > 0 {
        lemma_names_upto_by_counts(k1, k2, j - 1);
        assert(kind_count(k1, kinds_by_name()[j - 1]) == kind_count(k2, kinds_by_name()[j - 1]));
    }
}

/// The cache key does not depend on the order in which a query names its
/// sources, nor on the case or surrounding whitespace of its text: queries
/// that agree on the trimmed lowercased text, the sources up to order, the
/// limit, the recency and both dates share one key.
pub proof fn law_cache_key_ignores_source_order(q1: SearchQuery, q2: SearchQuery)
    requires
        same_key_fields(q1, q2),
    ensures
        cache_key_of(q1) == cache_key_of(q2),
{
    assert forall|k: SourceKind| kind_count(q1.sources@, k) == kind_count(q2.sources@, k) by {
        lemma_kind_count_is_multiplicity(q1.sources@, k);
        lemma_kind_count_is_multiplicity(q2.sources@, k);
    }
    lemma_names_upto_by_counts(q1.sources@, q2.sources@, 5);
}

/// Occurrences of a character.
pub open spec fn occ(s: Seq<char>, c: char) -> nat {
    s.filter(|x: char| x == c).len()
}

/// Occurrences of a character over a sequence of pieces.
pub open spec fn occ_all(ws: Seq<Seq<char>>, c: char) -> nat
    decreases ws.len(),
{
    if ws.len() == 0 {
        0
    } else {
        occ_all(ws.drop_last(), c) + occ(ws.last(), c)
    }
}

proof fn lemma_occ_add(a: Seq<char>, b: Seq<char>, c: char)
    ensures
        occ(a + b, c) == occ(a, c) + occ(b, c),
{
    Seq::filter_distributes_over_add(a, b, |x: char| x == c);
}

proof fn lemma_occ_join(ws: Seq<Seq<char>>, sep: char, c: char)
    requires
        sep != c,
    ensures
        occ(join_by(ws, sep), c) == occ_all(ws, c),
    decreases ws.len(),
{
    reveal_with_fuel(Seq::filter, 2);
    if ws.len() == 0 {
        assert(join_by(ws, sep) =~= Seq::<char>::empty());
        assert(Seq::<char>::empty().filter(|x: char| x == c) =~= Seq::<char>::empty());
    } else if ws.len() == 1 {
        assert(ws.drop_last().len() == 0);
        assert(occ_all(ws, c) == occ_all(ws.drop_last(), c) + occ(ws.last(), c));
        assert(ws.last() == ws[0]);
    } else {
        lemma_occ_join(ws.drop_last(), sep, c);
        let j = join_by(ws.drop_last(), sep);
        lemma_occ_add(j, seq![sep], c);
        lemma_occ_add(j + seq![sep], ws.last(), c);
        assert(seq![sep].filter(|x: char| x == c) =~= Seq::<char>::empty()) by {
            assert(seq![sep].drop_last() =~= Seq::<char>::empty());
        }
        assert(join_by(ws, sep) == j + seq![sep] + ws.last());
        assert(occ_all(ws, c) == occ_all(ws.drop_last(), c) + occ(ws.last(), c));
    }
}

proof fn lemma_occ_all_add(a: Seq<Seq<char>>, b: Seq<Seq<char>>, c: char)
    ensures
        occ_all(a + b, c) == occ_all(a, c) + occ_all(b, c),
    decreases b.len(),
{
    if b.len() > 0 {
        lemma_occ_all_add(a, b.drop_last(), c);
        assert((a + b).drop_last() =~= a + b.drop_last());
    } else {
        assert(a + b =~= a);
    }
}

proof fn lemma_occ_all_repeat(w: Seq<char>, n: nat, c: char)
    ensures
        occ_all(repeat(w, n), c) == n * occ(w, c),
    decreases n,
{
    if n > 0 {
        lemma_occ_all_repeat(w, (n - 1) as nat, c);
        assert(repeat(w, n).drop_last() =~= repeat(w, (n - 1) as nat));
        assert(repeat(w, n).last() == w);
        assert(occ_all(repeat(w, n), c) == occ_all(repeat(w, n).drop_last(), c) + occ(repeat(w, n).last(), c));
        let m = (n - 1) as nat;
        let o = occ(w, c);
        assert(n * o == m * o + o) by (nonlinear_arith)
            requires
                n == m + 1,
        ;
    } else {
        assert(repeat(w, n).len() == 0);
        assert(n * occ(w, c) == 0);
    }
}

/// The capital letter that only the name of `k` holds.
pub open spec fn name_mark(k: SourceKind) -> char {
    match k {
        SourceKind::Arxiv => 'A',
        SourceKind::Blog => 'B',
        SourceKind::News => 'N',
        SourceKind::Web => 'W',
        SourceKind::Youtube => 'Y',
    }
}

proof fn lemma_name_marks(i: SourceKind, k: SourceKind)
    ensures
        occ(kind_name(i), name_mark(k)) == if i == k {
            1nat
        } else {
            0nat
        },
{
    reveal_with_fuel(Seq::filter, 8);
    reveal_strlit("Arxiv");
    reveal_strlit("News");
    reveal_strlit("Blog");
    reveal_strlit("Youtube");
    reveal_strlit("Web");
}

proof fn lemma_kinds_by_name_distinct()
    ensures
        forall|a: int, b: int| 0 <= a < b < 5 ==> kinds_by_name()[a] != kinds_by_name()[b],
{
}

#[verifier::spinoff_prover]
proof fn lemma_marks_in_names(kinds: Seq<SourceKind>, j: int, k: SourceKind)
    requires
        0 <= j <= 5,
    ensures
        occ_all(names_upto(kinds, j), name_mark(k)) == (
        if exists|m: int| 0 <= m < j && kinds_by_name()[m] == k {
            kind_count(kinds, k)
        } else {
            0
        }),
    decreases j,
{
    if j > 0 {
        lemma_marks_in_names(kinds, j - 1, k);
        let kk = kinds_by_name()[j - 1];
        let w = kind_name(kk);
        let c = kind_count(kinds, kk);
        assert(names_upto(kinds, j) == names_upto(kinds, j - 1) + repeat(w, c));
        lemma_occ_all_add(names_upto(kinds, j - 1), repeat(w, c), name_mark(k));
        lemma_occ_all_repeat(w, c, name_mark(k));
        lemma_name_marks(kk, k);
        lemma_kinds_by_name_distinct();
        if kk == k {
            assert(occ_all(repeat(w, c), name_mark(k)) == c);
            assert forall|m: int| 0 <= m < j - 1 implies kinds_by_name()[m] != k by {
                assert(kinds_by_name()[m] != kinds_by_name()[j - 1]);
            }
            assert(!exists|m: int| 0 <= m < j - 1 && kinds_by_name()[m] == k);
            assert(exists|m: int| 0 <= m < j && kinds_by_name()[m] == k) by {
                assert(kinds_by_name()[j - 1] == k);
            }
        } else {
            assert(occ_all(repeat(w, c), name_mark(k)) == 0);
            assert((exists|m: int| 0 <= m < j && kinds_by_name()[m] == k) == (exists|m: int|
                0 <= m < j - 1 && kinds_by_name()[m] == k));
        }
    }
}

proof fn lemma_joined_names_tell_sets(k1: Seq<SourceKind>, k2: Seq<SourceKind>)
    requires
        join_by(sorted_kind_names(k1), ',') == join_by(sorted_kind_names(k2), ','),
    ensures
        k1.to_multiset() == k2.to_multiset(),
{
    let j1 = join_by(sorted_kind_names(k1), ',');
    let j2 = join_by(sorted_kind_names(k2), ',');
    assert forall|k: SourceKind| k1.to_multiset().count(k) == k2.to_multiset().count(k) by {
        lemma_kind_count_is_multiplicity(k1, k);
        lemma_kind_count_is_multiplicity(k2, k);
        assert(name_mark(k) != ',');
        lemma_occ_join(sorted_kind_names(k1), ',', name_mark(k));
        lemma_occ_join(sorted_kind_names(k2), ',', name_mark(k));
        lemma_marks_in_names(k1, 5, k);
        lemma_marks_in_names(k2, 5, k);
        let m = match k {
            SourceKind::Arxiv => 0int,
            SourceKind::Blog => 1int,
            SourceKind::News => 2int,
            SourceKind::Web => 3int,
            SourceKind::Youtube => 4int,
        };
        assert(kinds_by_name()[m] == k);
    }
    assert(k1.to_multiset() =~= k2.to_multiset());
}

/// Queries alike in all else but naming different sources (as a multiset)
/// have different cache keys, so a different combination of sources never
/// hits another's cached report.
#[verifier::spinoff_prover]
pub proof fn law_cache_key_tells_source_sets_apart(q1: SearchQuery, q2: SearchQuery)
    requires
        q1.text@ == q2.text@,
        q1.limit == q2.limit,
        q1.recency == q2.recency,
        q1.from_date == q2.from_date,
        q1.to_date == q2.to_date,
        cache_key_of(q1) == cache_key_of(q2),
    ensures
        q1.sources@.to_multiset() == q2.sources@.to_multiset(),
{
    let head = str_lowercase(trim(q1.text@)) + "|"@;
    let j1 = join_by(sorted_kind_names(q1.sources@), ',');
    let j2 = join_by(sorted_kind_names(q2.sources@), ',');
    let tail = "|"@ + decimal(q1.limit as nat) + "|"@ + recency_debug(q1.recency) + "|"@
        + instant_opt_debug(q1.from_date) + "|"@ + instant_opt_debug(q1.to_date);
    assert(cache_key_of(q1) =~= head + j1 + tail);
    assert(cache_key_of(q2) =~= head + j2 + tail);
    assert(j1.len() == j2.len());
    assert(j1 =~= j2) by {
        assert forall|i: int| 0 <= i < j1.len() implies j1[i] == j2[i] by {
            assert(j1[i] == cache_key_of(q1)[head.len() + i]);
            assert(j2[i] == cache_key_of(q2)[head.len() + i]);
        }
    }
    lemma_joined_names_tell_sets(q1.sources@, q2.sources@);
}

/// Removing tags leaves no `<`: every character from a `<` up to the
/// next `>` is dropped.
pub proof fn law_tags_removed(s: Seq<char>, in_tag: bool)
    ensures
        !strip_tags(s, in_tag).contains('<'),
        strip_tags(s, in_tag).len() <= s.len(),
    decreases s.len(),
{
    if s.len() > 0 {
        law_tags_removed(s.drop_first(), true);
        law_tags_removed(s.drop_first(), false);
        if s[0] != '<' && s[0] != '>' && !in_tag {
            let r = strip_tags(s.drop_first(), false);
            assert(!(seq![s[0]] + r).contains('<')) by {
                if (seq![s[0]] + r).contains('<') {
                    let m = choose|m: int| 0 <= m < (seq![s[0]] + r).len() && (seq![s[0]] + r)[m] == '<';
                    if m > 0 {
                        assert(r[m - 1] == '<');
                    }
                }
            }
        }
    }
}

/// Whether a path of documents steps from each to the next through a pair
/// of near duplicates.
pub open spec fn near_chain(sigs: Seq<Seq<u64>>, min_matches: u64, path: Seq<int>) -> bool {
    &&& path.len() >= 1
    &&& forall|k: int| 0 <= k < path.len() ==> 0 <= #[trigger] path[k] < sigs.len()
    &&& forall|k: int|
        0 <= k < path.len() - 1 ==> near_pair(sigs[#[trigger] path[k]], sigs[path[k + 1]], min_matches)
            || near_pair(sigs[path[k + 1]], sigs[path[k]], min_matches)
}

proof fn lemma_chain_join(sigs: Seq<Seq<u64>>, m: u64, p1: Seq<int>, p2: Seq<int>)
    requires
        near_chain(sigs, m, p1),
        near_chain(sigs, m, p2),
        near_pair(sigs[p1.last()], sigs[p2[0]], m) || near_pair(sigs[p2[0]], sigs[p1.last()], m),
    ensures
        near_chain(sigs, m, p1 + p2),
        (p1 + p2)[0] == p1[0],
        (p1 + p2).last() == p2.last(),
{
    let p = p1 + p2;
    assert forall|k: int| 0 <= k < p.len() implies 0 <= #[trigger] p[k] < sigs.len() by {
        if k < p1.len() {
            assert(p[k] == p1[k]);
        } else {
            assert(p[k] == p2[k - p1.len()]);
        }
    }
    assert forall|k: int| 0 <= k < p.len() - 1 implies near_pair(sigs[#[trigger] p[k]], sigs[p[k + 1]], m)
        || near_pair(sigs[p[k + 1]], sigs[p[k]], m) by {
        if k < p1.len() - 1 {
            assert(p[k] == p1[k] && p[k + 1] == p1[k + 1]);
        } else if k == p1.len() - 1 {
            assert(p[k] == p1.last() && p[k + 1] == p2[0]);
        } else {
            assert(p[k] == p2[k - p1.len()] && p[k + 1] == p2[k + 1 - p1.len()]);
        }
    }
}

proof fn lemma_agree_count_symmetric(s1: Seq<u64>, s2: Seq<u64>, k: int)
    ensures
        agree_count(s1, s2, k) == agree_count(s2, s1, k),
    decreases k,
{
    if k > 0 {
        lemma_agree_count_symmetric(s1, s2, k - 1);
    }
}

proof fn lemma_near_pair_symmetric(s1: Seq<u64>, s2: Seq<u64>, m: u64)
    ensures
        near_pair(s1, s2, m) == near_pair(s2, s1, m),
{
    lemma_agree_count_symmetric(s1, s2, MINHASH_N as int);
    if share_band(s1, s2) {
        let b = choose|b: int| 0 <= b < LSH_BANDS && #[trigger] band_hash(s1, b) == band_hash(s2, b);
        assert(band_hash(s2, b) == band_hash(s1, b));
    }
    if share_band(s2, s1) {
        let b = choose|b: int| 0 <= b < LSH_BANDS && #[trigger] band_hash(s2, b) == band_hash(s1, b);
        assert(band_hash(s1, b) == band_hash(s2, b));
    }
}

#[verifier::spinoff_prover]
proof fn lemma_union_labels_components(sigs: Seq<Seq<u64>>, m: u64, pairs: Seq<(int, int)>, n: nat)
    requires
        sigs.len() == n,
        forall|k: int| 0 <= k < pairs.len() ==> 0 <= (#[trigger] pairs[k]).0 < n && 0 <= pairs[k].1 < n,
    ensures
        union_labels(sigs, m, pairs, n).len() == n,
        forall|k: int|
            0 <= k < pairs.len() && near_pair(sigs[(#[trigger] pairs[k]).0], sigs[pairs[k].1], m)
                ==> union_labels(sigs, m, pairs, n)[pairs[k].0] == union_labels(sigs, m, pairs, n)[pairs[k].1],
        forall|i: int, j: int|
            0 <= i < n && 0 <= j < n && #[trigger] union_labels(sigs, m, pairs, n)[i]
                == #[trigger] union_labels(sigs, m, pairs, n)[j] ==> exists|path: Seq<int>|
                #[trigger] near_chain(sigs, m, path) && path[0] == i && path.last() == j,
    decreases pairs.len(),
{
    let big_l = union_labels(sigs, m, pairs, n);
    if pairs.len() == 0 {
        assert forall|i: int, j: int|
            0 <= i < n && 0 <= j < n && #[trigger] big_l[i] == #[trigger] big_l[j] implies exists|path: Seq<int>|
            #[trigger] near_chain(sigs, m, path) && path[0] == i && path.last() == j by {
            let path = seq![i];
            assert(near_chain(sigs, m, path));
        }
    } else {
        let prev = pairs.drop_last();
        lemma_union_labels_components(sigs, m, prev, n);
        let l = union_labels(sigs, m, prev, n);
        let p = pairs.last();
        assert(0 <= p.0 < n && 0 <= p.1 < n) by {
            assert(pairs[pairs.len() - 1] == p);
        }
        if near_pair(sigs[p.0], sigs[p.1], m) {
            assert(big_l == relabel(l, p.0, p.1));
            law_union_joins_classes(l, p.0, p.1);
            assert forall|k: int|
                0 <= k < pairs.len() && near_pair(sigs[(#[trigger] pairs[k]).0], sigs[pairs[k].1], m)
                    implies big_l[pairs[k].0] == big_l[pairs[k].1] by {
                if k < pairs.len() - 1 {
                    assert(prev[k] == pairs[k]);
                }
            }
            assert forall|i: int, j: int|
                0 <= i < n && 0 <= j < n && #[trigger] big_l[i] == #[trigger] big_l[j] implies exists|path: Seq<int>|
                #[trigger] near_chain(sigs, m, path) && path[0] == i && path.last() == j by {
                let x = p.0;
                let y = p.1;
                if l[i] == l[j] {
                } else if l[i] == l[x] {
                    assert(l[j] == l[y]);
                    let p1 = choose|path: Seq<int>| #[trigger] near_chain(sigs, m, path) && path[0] == i && path.last() == x;
                    let p2 = choose|path: Seq<int>| #[trigger] near_chain(sigs, m, path) && path[0] == y && path.last() == j;
                    lemma_chain_join(sigs, m, p1, p2);
                } else {
                    assert(l[j] == l[x]);
                    assert(l[i] == l[y]);
                    let p1 = choose|path: Seq<int>| #[trigger] near_chain(sigs, m, path) && path[0] == i && path.last() == y;
                    let p2 = choose|path: Seq<int>| #[trigger] near_chain(sigs, m, path) && path[0] == x && path.last() == j;
                    lemma_chain_join(sigs, m, p1, p2);
                }
            }
        } else {
            assert(big_l == l);
            assert forall|k: int|
                0 <= k < pairs.len() && near_pair(sigs[(#[trigger] pairs[k]).0], sigs[pairs[k].1], m)
                    implies big_l[pairs[k].0] == big_l[pairs[k].1] by {
                if k < pairs.len() - 1 {
                    assert(prev[k] == pairs[k]);
                }
            }
        }
    }
}

proof fn lemma_pairs_before_cover(n: int, x: int)
    requires
        0 <= x <= n,
    ensures
        forall|k: int|
            0 <= k < pairs_before(n, x).len() ==> 0 <= (#[trigger] pairs_before(n, x)[k]).0 < x
                && pairs_before(n, x)[k].0 < pairs_before(n, x)[k].1 < n,
        forall|a: int, c: int|
            0 <= a < x && a < c < n ==> #[trigger] pairs_before(n, x).contains((a, c)),
    decreases x,
{
    if x > 0 {
        lemma_pairs_before_cover(n, x - 1);
        let prev = pairs_before(n, x - 1);
        let tail = pairs_from(x - 1, n - x);
        let all = pairs_before(n, x);
        assert(all == prev + tail);
        assert forall|k: int| 0 <= k < all.len() implies 0 <= (#[trigger] all[k]).0 < x && all[k].0 < all[k].1 < n by {
            if k < prev.len() {
                assert(all[k] == prev[k]);
            } else {
                assert(all[k] == tail[k - prev.len()]);
            }
        }
        assert forall|a: int, c: int| 0 <= a < x && a < c < n implies #[trigger] all.contains((a, c)) by {
            if a < x - 1 {
                assert(prev.contains((a, c)));
                let k = choose|k: int| 0 <= k < prev.len() && prev[k] == (a, c);
                assert(all[k] == (a, c));
            } else {
                let k = c - x;
                assert(tail[k] == (a, c));
                assert(all[prev.len() + k] == (a, c));
            }
        }
    }
}

/// Near-duplicate classes are the linked components of the near-duplicate
/// pairs: two documents that are near duplicates (their signatures share an
/// LSH band and agree in at least `min_matches` slots) share a class, and
/// two documents share a class only when a chain of near-duplicate pairs
/// links them. So the order in which pairs are examined does not matter.
#[verifier::spinoff_prover]
pub proof fn law_near_classes_are_linked_components(docs: Seq<DocView>, min_matches: u64)
    ensures
        near_dup_labels(docs, min_matches).len() == docs.len(),
        forall|a: int, c: int|
            0 <= a < docs.len() && 0 <= c < docs.len() && #[trigger] near_pair(
                signatures_of(docs)[a],
                signatures_of(docs)[c],
                min_matches,
            ) ==> near_dup_labels(docs, min_matches)[a] == near_dup_labels(docs, min_matches)[c],
        forall|i: int, j: int|
            0 <= i < docs.len() && 0 <= j < docs.len() && #[trigger] near_dup_labels(docs, min_matches)[i]
                == #[trigger] near_dup_labels(docs, min_matches)[j] ==> exists|path: Seq<int>|
                #[trigger] near_chain(signatures_of(docs), min_matches, path) && path[0] == i && path.last()
                    == j,
{
    let n = docs.len();
    let sigs = signatures_of(docs);
    let pairs = pairs_before(n as int, n as int);
    lemma_pairs_before_cover(n as int, n as int);
    lemma_union_labels_components(sigs, min_matches, pairs, n);
    let l = near_dup_labels(docs, min_matches);
    assert forall|a: int, c: int|
        0 <= a < n && 0 <= c < n && #[trigger] near_pair(sigs[a], sigs[c], min_matches) implies l[a] == l[c] by {
        if a < c {
            assert(pairs.contains((a, c)));
            let k = choose|k: int| 0 <= k < pairs.len() && pairs[k] == (a, c);
            assert(pairs[k] == (a, c));
        } else if c < a {
            lemma_near_pair_symmetric(sigs[a], sigs[c], min_matches);
            assert(pairs.contains((c, a)));
            let k = choose|k: int| 0 <= k < pairs.len() && pairs[k] == (c, a);
            assert(pairs[k] == (c, a));
        }
    }
}

proof fn lemma_trim_end_char(s: Seq<char>, c: char)
    ensures
        trim_end_char(s, c).len() == 0 || trim_end_char(s, c).last() != c,
        trim_end_char(trim_end_char(s, c), c) == trim_end_char(s, c),
    decreases s.len(),
{
    if s.len() > 0 && s.last() == c {
        lemma_trim_end_char(s.drop_last(), c);
    }
}

/// Canonical URLs carry no tracking parameter: the query pairs kept are
/// exactly the non-tracking pairs of the URL, in order; and a canonical URL
/// never ends with `/`.
pub proof fn law_canonical_urls_drop_tracking(raw: Seq<char>)
    ensures
        match url_query_pairs(raw) {
            Some(pairs) => {
                &&& forall|k: int|
                    0 <= k < without_tracking(pairs).len() ==> !is_tracking_key(
                        #[trigger] without_tracking(pairs)[k].0,
                    )
                &&& forall|k: int|
                    0 <= k < pairs.len() && !is_tracking_key(#[trigger] pairs[k].0) ==> without_tracking(
                        pairs,
                    ).contains(pairs[k])
            },
            None => canonical_url_of(raw) is None,
        },
        match canonical_url_of(raw) {
            Some(u) => u.len() == 0 || u.last() != '/',
            None => true,
        },
{
    match url_query_pairs(raw) {
        Some(pairs) => {
            let pred = |p: (Seq<char>, Seq<char>)| !is_tracking_key(p.0);
            #[allow(deprecated)]
            pairs.filter_lemma(pred);
            let kept = without_tracking(pairs);
            let serialized = if kept.len() == 0 {
                url_without_query(raw)
            } else {
                url_with_query_pairs(raw, kept)
            };
            lemma_trim_end_char(serialized, '/');
        },
        None => {},
    }
}

/// What [`crate::dedup::near_dedup`] returns, as a model.
pub open spec fn near_dedup_of(docs: Seq<DocView>, min_matches: u64) -> Seq<DocView> {
    if docs.len() < 2 {
        docs
    } else {
        merge_classes(docs, near_dup_labels(docs, min_matches))
    }
}

proof fn lemma_agree_count_bound(s1: Seq<u64>, s2: Seq<u64>, k: int)
    requires
        k >= 0,
    ensures
        agree_count(s1, s2, k) <= k,
    decreases k,
{
    if k > 0 {
        lemma_agree_count_bound(s1, s2, k - 1);
    }
}

proof fn lemma_union_without_pairs(sigs: Seq<Seq<u64>>, m: u64, pairs: Seq<(int, int)>, n: nat)
    requires
        forall|k: int| 0 <= k < pairs.len() ==> !near_pair(sigs[(#[trigger] pairs[k]).0], sigs[pairs[k].1], m),
    ensures
        union_labels(sigs, m, pairs, n) == Seq::new(n, |i: int| i),
    decreases pairs.len(),
{
    if pairs.len() > 0 {
        let prev = pairs.drop_last();
        assert forall|k: int| 0 <= k < prev.len() implies !near_pair(sigs[(#[trigger] prev[k]).0], sigs[prev[k].1], m) by {
            assert(prev[k] == pairs[k]);
        }
        lemma_union_without_pairs(sigs, m, prev, n);
        assert(pairs[pairs.len() - 1] == pairs.last());
    }
}

/// With a threshold above the 64 signature slots no two documents agree
/// enough, so near-duplicate merging returns the documents unchanged.
pub proof fn law_unreachable_threshold_changes_nothing(docs: Seq<DocView>, min_matches: u64)
    requires
        min_matches > MINHASH_N,
    ensures
        near_dedup_of(docs, min_matches) == docs,
{
    if docs.len() >= 2 {
        let sigs = signatures_of(docs);
        let n = docs.len();
        let pairs = pairs_before(n as int, n as int);
        assert forall|k: int| 0 <= k < pairs.len() implies !near_pair(sigs[(#[trigger] pairs[k]).0], sigs[pairs[k].1], min_matches) by {
            lemma_agree_count_bound(sigs[pairs[k].0], sigs[pairs[k].1], MINHASH_N as int);
        }
        lemma_union_without_pairs(sigs, min_matches, pairs, n);
        let l = near_dup_labels(docs, min_matches);
        assert(l == Seq::new(n, |i: int| i));
        law_near_merge_keeps_leaders(docs, l);
    }
}

proof fn lemma_chain_same_label(sigs: Seq<Seq<u64>>, m: u64, l: Seq<int>, path: Seq<int>)
    requires
        near_chain(sigs, m, path),
        l.len() == sigs.len(),
        forall|a: int, c: int|
            0 <= a < sigs.len() && 0 <= c < sigs.len() && #[trigger] near_pair(sigs[a], sigs[c], m) ==> l[a] == l[c],
    ensures
        l[path[0]] == l[path.last()],
    decreases path.len(),
{
    if path.len() > 1 {
        let dl = path.drop_last();
        assert forall|k: int| 0 <= k < dl.len() implies 0 <= #[trigger] dl[k] < sigs.len() by {
            assert(dl[k] == path[k]);
        }
        assert forall|k: int| 0 <= k < dl.len() - 1 implies near_pair(sigs[#[trigger] dl[k]], sigs[dl[k + 1]], m)
            || near_pair(sigs[dl[k + 1]], sigs[dl[k]], m) by {
            assert(dl[k] == path[k] && dl[k + 1] == path[k + 1]);
        }
        lemma_chain_same_label(sigs, m, l, dl);
        let k = path.len() - 2;
        assert(0 <= path[k] < sigs.len() && 0 <= path[k + 1] < sigs.len());
        if near_pair(sigs[path[k]], sigs[path[k + 1]], m) {
        } else {
            assert(near_pair(sigs[path[k + 1]], sigs[path[k]], m));
        }
    }
}

proof fn lemma_chain_weaker(sigs: Seq<Seq<u64>>, m1: u64, m2: u64, path: Seq<int>)
    requires
        m1 <= m2,
        near_chain(sigs, m2, path),
    ensures
        near_chain(sigs, m1, path),
{
    assert forall|k: int| 0 <= k < path.len() - 1 implies near_pair(sigs[#[trigger] path[k]], sigs[path[k + 1]], m1)
        || near_pair(sigs[path[k + 1]], sigs[path[k]], m1) by {
        assert(near_pair(sigs[path[k]], sigs[path[k + 1]], m2) || near_pair(sigs[path[k + 1]], sigs[path[k]], m2));
    }
}

proof fn lemma_filter_len_implied(s: Seq<int>, p1: spec_fn(int) -> bool, p2: spec_fn(int) -> bool)
    requires
        forall|k: int| 0 <= k < s.len() && p1(#[trigger] s[k]) ==> p2(s[k]),
    ensures
        s.filter(p1).len() <= s.filter(p2).len(),
    decreases s.len(),
{
    reveal_with_fuel(Seq::filter, 1);
    if s.len() > 0 {
        let dl = s.drop_last();
        assert forall|k: int| 0 <= k < dl.len() && p1(#[trigger] dl[k]) implies p2(dl[k]) by {
            assert(dl[k] == s[k]);
        }
        lemma_filter_len_implied(dl, p1, p2);
        assert(p1(s[s.len() - 1]) ==> p2(s[s.len() - 1]));
    }
}

/// A higher similarity threshold never merges more: near-duplicate merging
/// at a stricter `min_matches` returns at least as many documents.
#[verifier::spinoff_prover]
pub proof fn law_higher_threshold_merges_less(docs: Seq<DocView>, m1: u64, m2: u64)
    requires
        m1 <= m2,
    ensures
        near_dedup_of(docs, m1).len() <= near_dedup_of(docs, m2).len(),
{
    if docs.len() >= 2 {
        let n = docs.len();
        let sigs = signatures_of(docs);
        let l1 = near_dup_labels(docs, m1);
        let l2 = near_dup_labels(docs, m2);
        law_near_classes_are_linked_components(docs, m1);
        law_near_classes_are_linked_components(docs, m2);
        assert(sigs.len() == n);
        assert forall|i: int, j: int| 0 <= i < n && 0 <= j < n && l2[i] == l2[j] implies l1[i] == l1[j] by {
            let path = choose|path: Seq<int>| #[trigger] near_chain(sigs, m2, path) && path[0] == i && path.last() == j;
            lemma_chain_weaker(sigs, m1, m2, path);
            lemma_chain_same_label(sigs, m1, l1, path);
        }
        let all = Seq::new(n, |i: int| i);
        let p1 = |i: int| is_base(l1, i);
        let p2 = |i: int| is_base(l2, i);
        assert forall|k: int| 0 <= k < all.len() && p1(#[trigger] all[k]) implies p2(all[k]) by {
            let i = all[k];
            assert forall|j: int| 0 <= j < i implies l2[j] != l2[i] by {
                if l2[j] == l2[i] {
                    assert(l1[j] == l1[i]);
                }
            }
        }
        lemma_filter_len_implied(all, p1, p2);
    }
}


proof fn lemma_split_at_bar(a: Seq<char>, x: Seq<char>, b: Seq<char>, y: Seq<char>)
    requires
        bar_free(a),
        bar_free(b),
        a + seq!['|'] + x == b + seq!['|'] + y,
    ensures
        a == b,
        x == y,
{
    let l = a + seq!['|'] + x;
    let r = b + seq!['|'] + y;
    if a.len() < b.len() {
        assert(l[a.len() as int] == '|');
        assert(r[a.len() as int] == b[a.len() as int]);
    } else if b.len() < a.len() {
        assert(r[b.len() as int] == '|');
        assert(l[b.len() as int] == a[b.len() as int]);
    }
    assert(a =~= b) by {
        assert forall|i: int| 0 <= i < a.len() implies a[i] == b[i] by {
            assert(l[i] == a[i] && r[i] == b[i]);
        }
    }
    assert(a.len() == b.len());
    assert(x.len() == y.len()) by {
        assert(l.len() == a.len() + 1 + x.len());
        assert(r.len() == b.len() + 1 + y.len());
        assert(l.len() == r.len());
    }
    assert(x =~= y) by {
        assert forall|i: int| 0 <= i < x.len() implies x[i] == y[i] by {
            assert(l[a.len() + 1 + i] == x[i] && r[b.len() + 1 + i] == y[i]);
        }
    }
}

proof fn lemma_join_bar_free(ws: Seq<Seq<char>>, sep: char)
    requires
        sep != '|',
        forall|i: int| 0 <= i < ws.len() ==> bar_free(#[trigger] ws[i]),
    ensures
        bar_free(join_by(ws, sep)),
    decreases ws.len(),
{
    if ws.len() == 1 {
        assert(bar_free(ws[0]));
    } else if ws.len() > 1 {
        let dl = ws.drop_last();
        assert forall|i: int| 0 <= i < dl.len() implies bar_free(#[trigger] dl[i]) by {
            assert(dl[i] == ws[i]);
        }
        lemma_join_bar_free(dl, sep);
        let j = join_by(dl, sep);
        let last = ws.last();
        assert(bar_free(ws[ws.len() - 1]));
        let all = j + seq![sep] + last;
        assert(join_by(ws, sep) == all);
        assert forall|i: int| 0 <= i < all.len() implies all[i] != '|' by {
            if i < j.len() {
                assert(all[i] == j[i]);
            } else if i > j.len() {
                assert(all[i] == last[i - j.len() - 1]);
            }
        }
    }
}

proof fn lemma_kind_names_bar_free(k: SourceKind)
    ensures
        bar_free(kind_name(k)),
{
    reveal_strlit("Arxiv");
    reveal_strlit("News");
    reveal_strlit("Blog");
    reveal_strlit("Youtube");
    reveal_strlit("Web");
}

proof fn lemma_names_upto_bar_free(kinds: Seq<SourceKind>, j: int)
    ensures
        forall|i: int| 0 <= i < names_upto(kinds, j).len() ==> bar_free(#[trigger] names_upto(kinds, j)[i]),
    decreases j,
{
    if j > 0 {
        lemma_names_upto_bar_free(kinds, j - 1);
        let prev = names_upto(kinds, j - 1);
        let kk = kinds_by_name()[j - 1];
        let rep = repeat(kind_name(kk), kind_count(kinds, kk));
        lemma_kind_names_bar_free(kk);
        let all = names_upto(kinds, j);
        assert(all == prev + rep);
        assert forall|i: int| 0 <= i < all.len() implies bar_free(#[trigger] all[i]) by {
            if i < prev.len() {
                assert(all[i] == prev[i]);
            } else {
                assert(all[i] == rep[i - prev.len()]);
            }
        }
    }
}

proof fn lemma_decimal_digits(n: nat)
    ensures
        decimal(n).len() >= 1,
        forall|i: int| 0 <= i < decimal(n).len() ==> '0' <= #[trigger] decimal(n)[i] <= '9',
    decreases n,
{
    if n >= 10 {
        lemma_decimal_digits(n / 10);
        let p = decimal(n / 10);
        assert forall|i: int| 0 <= i < decimal(n).len() implies '0' <= #[trigger] decimal(n)[i] <= '9' by {
            if i < p.len() {
                assert(decimal(n)[i] == p[i]);
            }
        }
    }
}

proof fn lemma_digit_injective(d1: nat, d2: nat)
    requires
        d1 < 10,
        d2 < 10,
        digit_char(d1) == digit_char(d2),
    ensures
        d1 == d2,
{
    assert(digit_char(d1) as int == 48 + d1);
    assert(digit_char(d2) as int == 48 + d2);
}

proof fn lemma_decimal_injective(a: nat, b: nat)
    requires
        decimal(a) == decimal(b),
    ensures
        a == b,
    decreases a,
{
    lemma_decimal_digits(a);
    lemma_decimal_digits(b);
    if a < 10 && b < 10 {
        let x = digit_char(a);
        let y = digit_char(b);
        assert(decimal(a) == seq![x]);
        assert(decimal(b) == seq![y]);
        assert(seq![x][0] == x);
        assert(seq![y][0] == y);
        assert(x == y);
        lemma_digit_injective(a, b);
    } else if a < 10 {
        lemma_decimal_digits(b / 10);
        assert(decimal(b).len() >= 2);
    } else if b < 10 {
        lemma_decimal_digits(a / 10);
        assert(decimal(a).len() >= 2);
    } else {
        let da = decimal(a);
        let db = decimal(b);
        assert(da.last() == db.last());
        assert(da.drop_last() =~= decimal(a / 10));
        assert(db.drop_last() =~= decimal(b / 10));
        lemma_decimal_injective(a / 10, b / 10);
        assert(da.last() == digit_char(a % 10));
        assert(db.last() == digit_char(b % 10));
        lemma_digit_injective(a % 10, b % 10);
    }
}

proof fn lemma_recency_debug(r1: Option<Recency>, r2: Option<Recency>)
    ensures
        bar_free(recency_debug(r1)),
        recency_debug(r1) == recency_debug(r2) ==> r1 == r2,
{
    reveal_strlit("None");
    reveal_strlit("Some(Day)");
    reveal_strlit("Some(Week)");
    reveal_strlit("Some(Month)");
    reveal_strlit("Some(Year)");
    if recency_debug(r1) == recency_debug(r2) && r1 != r2 {
        let a = recency_debug(r1);
        let b = recency_debug(r2);
        assert(a.len() == b.len());
        assert(a[5] == b[5]);
    }
}

/// The cache key tells queries apart: where the normalized texts hold no
/// `|` (the field separator), queries with one key have the same normalized
/// text (trimmed, lowercased), the same sources up to order, the same limit
/// and recency, and the same date conditions as written in the key.
#[verifier::spinoff_prover]
pub proof fn law_cache_key_determines_query(q1: SearchQuery, q2: SearchQuery)
    requires
        bar_free(str_lowercase(trim(q1.text@))),
        bar_free(str_lowercase(trim(q2.text@))),
        cache_key_of(q1) == cache_key_of(q2),
    ensures
        str_lowercase(trim(q1.text@)) == str_lowercase(trim(q2.text@)),
        q1.sources@.to_multiset() == q2.sources@.to_multiset(),
        q1.limit == q2.limit,
        q1.recency == q2.recency,
        instant_opt_debug(q1.from_date) + "|"@ + instant_opt_debug(q1.to_date) == instant_opt_debug(
            q2.from_date,
        ) + "|"@ + instant_opt_debug(q2.to_date),
{
    reveal_strlit("|");
    let bar = seq!['|'];
    assert("|"@ == bar);
    let n1 = str_lowercase(trim(q1.text@));
    let n2 = str_lowercase(trim(q2.text@));
    let j1 = join_by(sorted_kind_names(q1.sources@), ',');
    let j2 = join_by(sorted_kind_names(q2.sources@), ',');
    let d1 = decimal(q1.limit as nat);
    let d2 = decimal(q2.limit as nat);
    let r1 = recency_debug(q1.recency);
    let r2 = recency_debug(q2.recency);
    let t1 = instant_opt_debug(q1.from_date) + "|"@ + instant_opt_debug(q1.to_date);
    let t2 = instant_opt_debug(q2.from_date) + "|"@ + instant_opt_debug(q2.to_date);
    assert(cache_key_of(q1) =~= n1 + bar + (j1 + bar + (d1 + bar + (r1 + bar + t1))));
    assert(cache_key_of(q2) =~= n2 + bar + (j2 + bar + (d2 + bar + (r2 + bar + t2))));
    lemma_split_at_bar(n1, j1 + bar + (d1 + bar + (r1 + bar + t1)), n2, j2 + bar + (d2 + bar + (r2 + bar + t2)));
    lemma_names_upto_bar_free(q1.sources@, 5);
    lemma_names_upto_bar_free(q2.sources@, 5);
    lemma_join_bar_free(sorted_kind_names(q1.sources@), ',');
    lemma_join_bar_free(sorted_kind_names(q2.sources@), ',');
    lemma_split_at_bar(j1, d1 + bar + (r1 + bar + t1), j2, d2 + bar + (r2 + bar + t2));
    lemma_joined_names_tell_sets(q1.sources@, q2.sources@);
    lemma_decimal_digits(q1.limit as nat);
    lemma_decimal_digits(q2.limit as nat);
    lemma_split_at_bar(d1, r1 + bar + t1, d2, r2 + bar + t2);
    lemma_decimal_injective(q1.limit as nat, q2.limit as nat);
    lemma_recency_debug(q1.recency, q2.recency);
    lemma_recency_debug(q2.recency, q1.recency);
    lemma_split_at_bar(r1, t1, r2, t2);
}

/// Occurrences of a character in a one-character text.
proof fn lemma_occ_single(x: char, c: char)
    ensures
        occ(seq![x], c) == if x == c { 1nat } else { 0nat },
{
    reveal_with_fuel(Seq::filter, 2);
    assert(seq![x].drop_last() =~= Seq::<char>::empty());
    assert(Seq::<char>::empty().filter(|y: char| y == c) =~= Seq::<char>::empty());
}

/// A character occurs nowhere exactly when it is counted zero times.
proof fn lemma_occ_zero(s: Seq<char>, c: char)
    ensures
        occ(s, c) == 0 <==> forall|i: int| 0 <= i < s.len() ==> s[i] != c,
    decreases s.len(),
{
    if s.len() == 0 {
        assert(s.filter(|y: char| y == c).len() <= s.len()) by {
            s.lemma_filter_len(|y: char| y == c);
        }
    } else {
        let p = s.drop_last();
        assert(s =~= p + seq![s.last()]);
        lemma_occ_add(p, seq![s.last()], c);
        lemma_occ_single(s.last(), c);
        lemma_occ_zero(p, c);
        if forall|i: int| 0 <= i < s.len() ==> s[i] != c {
            assert forall|i: int| 0 <= i < p.len() implies p[i] != c by {
                assert(p[i] == s[i]);
            }
            assert(s[s.len() - 1] != c);
        }
        if occ(s, c) == 0 {
            assert forall|i: int| 0 <= i < s.len() implies s[i] != c by {
                if i < p.len() {
                    assert(p[i] == s[i]);
                }
            }
        }
    }
}

/// Occurrences of `|` in six fields joined by `|`.
proof fn lemma_occ_fields(a: Seq<char>, b: Seq<char>, c: Seq<char>, d: Seq<char>, e: Seq<char>, f: Seq<char>)
    ensures
        occ(a + seq!['|'] + b + seq!['|'] + c + seq!['|'] + d + seq!['|'] + e + seq!['|'] + f, '|') == occ(
            a,
            '|',
        ) + occ(b, '|') + occ(c, '|') + occ(d, '|') + occ(e, '|') + occ(f, '|') + 5,
{
    let s = seq!['|'];
    lemma_occ_single('|', '|');
    lemma_occ_add(a, s, '|');
    lemma_occ_add(a + s, b, '|');
    lemma_occ_add(a + s + b, s, '|');
    lemma_occ_add(a + s + b + s, c, '|');
    lemma_occ_add(a + s + b + s + c, s, '|');
    lemma_occ_add(a + s + b + s + c + s, d, '|');
    lemma_occ_add(a + s + b + s + c + s + d, s, '|');
    lemma_occ_add(a + s + b + s + c + s + d + s, e, '|');
    lemma_occ_add(a + s + b + s + c + s + d + s + e, s, '|');
    lemma_occ_add(a + s + b + s + c + s + d + s + e + s, f, '|');
}

/// The `Debug` text of an optional date holds no `|`.
proof fn lemma_opt_debug_bar_free(d: Option<Timestamp>)
    requires
        d matches Some(t) ==> debug_text_faithful(t),
    ensures
        bar_free(instant_opt_debug(d)),
{
    reveal_strlit("None");
    reveal_strlit("Some(");
    reveal_strlit(")");
    reveal_strlit("Some(invalid)");
    match d {
        None => {},
        Some(t) => match instant_debug_text(t) {
            None => {},
            Some(s) => {
                let x = instant_opt_debug(d);
                assert(x =~= "Some("@ + s + ")"@);
                assert forall|i: int| 0 <= i < x.len() implies x[i] != '|' by {
                    if 5 <= i < 5 + s.len() {
                        assert(x[i] == s[i - 5]);
                        assert(debug_text_char(s[i - 5]));
                    }
                }
            },
        },
    }
}

/// A representable date is told apart by its `Debug` text.
proof fn lemma_opt_debug_injective(a: Option<Timestamp>, b: Option<Timestamp>)
    requires
        date_representable(a),
        a matches Some(t) ==> debug_text_faithful(t),
        instant_opt_debug(a) == instant_opt_debug(b),
    ensures
        a == b,
{
    reveal_strlit("None");
    reveal_strlit("Some(");
    reveal_strlit(")");
    reveal_strlit("Some(invalid)");
    let x = instant_opt_debug(a);
    let y = instant_opt_debug(b);
    match a {
        None => {
            if b is Some {
                assert(y[0] == 'S');
                assert(x[0] == 'N');
            }
        },
        Some(t) => {
            let s = instant_debug_text(t)->0;
            assert(x =~= "Some("@ + s + ")"@);
            match b {
                None => {
                    assert(x.len() >= 6);
                },
                Some(u) => match instant_debug_text(u) {
                    None => {
                        assert(y.len() == 13);
                        assert(s.len() == 7);
                        assert(y[5] == 'i');
                        assert(x[5] == s[0]);
                        assert(debug_text_char(s[0]));
                    },
                    Some(s2) => {
                        assert(y =~= "Some("@ + s2 + ")"@);
                        assert(s2.len() == s.len());
                        assert(s2 =~= y.subrange(5, 5 + s2.len() as int));
                        assert(s =~= x.subrange(5, 5 + s.len() as int));
                        assert(instant_debug_text(u) == Some(s));
                    },
                },
            }
        },
    }
}

/// The cache key of a query whose normalized text holds no `|` and whose
/// dates are representable determines the query's fields: any query with
/// the same key agrees with it on every field the key records.
pub(crate) proof fn lemma_key_tells_fields(q1: SearchQuery, q2: SearchQuery)
    requires
        bar_free(str_lowercase(trim(q1.text@))),
        date_representable(q1.from_date),
        date_representable(q1.to_date),
        q1.from_date matches Some(t) ==> debug_text_faithful(t),
        q1.to_date matches Some(t) ==> debug_text_faithful(t),
        cache_key_of(q1) == cache_key_of(q2),
    ensures
        same_key_fields(q1, q2),
{
    reveal_strlit("|");
    let bar = seq!['|'];
    assert("|"@ == bar);
    let n1 = str_lowercase(trim(q1.text@));
    let n2 = str_lowercase(trim(q2.text@));
    let j1 = join_by(sorted_kind_names(q1.sources@), ',');
    let j2 = join_by(sorted_kind_names(q2.sources@), ',');
    let d1 = decimal(q1.limit as nat);
    let d2 = decimal(q2.limit as nat);
    let r1 = recency_debug(q1.recency);
    let r2 = recency_debug(q2.recency);
    let f1 = instant_opt_debug(q1.from_date);
    let f2 = instant_opt_debug(q2.from_date);
    let e1 = instant_opt_debug(q1.to_date);
    let e2 = instant_opt_debug(q2.to_date);
    assert(cache_key_of(q1) =~= n1 + bar + j1 + bar + d1 + bar + r1 + bar + f1 + bar + e1);
    assert(cache_key_of(q2) =~= n2 + bar + j2 + bar + d2 + bar + r2 + bar + f2 + bar + e2);
    lemma_occ_fields(n1, j1, d1, r1, f1, e1);
    lemma_occ_fields(n2, j2, d2, r2, f2, e2);
    lemma_names_upto_bar_free(q1.sources@, 5);
    lemma_names_upto_bar_free(q2.sources@, 5);
    lemma_join_bar_free(sorted_kind_names(q1.sources@), ',');
    lemma_join_bar_free(sorted_kind_names(q2.sources@), ',');
    lemma_decimal_digits(q1.limit as nat);
    lemma_decimal_digits(q2.limit as nat);
    lemma_recency_debug(q1.recency, q2.recency);
    lemma_recency_debug(q2.recency, q1.recency);
    lemma_opt_debug_bar_free(q1.from_date);
    lemma_opt_debug_bar_free(q1.to_date);
    lemma_occ_zero(n1, '|');
    lemma_occ_zero(j1, '|');
    lemma_occ_zero(d1, '|');
    lemma_occ_zero(r1, '|');
    lemma_occ_zero(f1, '|');
    lemma_occ_zero(e1, '|');
    lemma_occ_zero(n2, '|');
    lemma_occ_zero(j2, '|');
    lemma_occ_zero(d2, '|');
    lemma_occ_zero(r2, '|');
    lemma_occ_zero(f2, '|');
    lemma_occ_zero(e2, '|');
    assert(bar_free(n2));
    assert(bar_free(f2));
    law_cache_key_determines_query(q1, q2);
    assert(f1 + "|"@ + e1 == f2 + "|"@ + e2);
    lemma_split_at_bar(f1, e1, f2, e2);
    lemma_opt_debug_injective(q1.from_date, q2.from_date);
    lemma_opt_debug_injective(q1.to_date, q2.to_date);
}

/// The keyword filter keeps an item as soon as any one query word occurs in
/// its lowercased `title summary` text, whatever the other words are; with
/// no words every item is kept, and an item none of whose words occurs is
/// dropped.
pub proof fn law_keyword_filter_any_word(terms: Seq<Seq<char>>, title: Seq<char>, summary: Option<Seq<char>>)
    ensures
        terms.len() == 0 ==> keyword_match(terms, title, summary),
        (exists|j: int|
            0 <= j < terms.len() && occurs_in(
                #[trigger] terms[j],
                str_lowercase(
                    title + " "@ + match summary {
                        Some(s) => s,
                        None => seq![],
                    },
                ),
            )) ==> keyword_match(terms, title, summary),
        terms.len() > 0 && (forall|j: int|
            0 <= j < terms.len() ==> !occurs_in(
                #[trigger] terms[j],
                str_lowercase(
                    title + " "@ + match summary {
                        Some(s) => s,
                        None => seq![],
                    },
                ),
            )) ==> !keyword_match(terms, title, summary),
{
    let hay = str_lowercase(
        title + " "@ + match summary {
            Some(s) => s,
            None => seq![],
        },
    );
    assert(haystack(title, summary) == hay);
    if exists|j: int| 0 <= j < terms.len() && occurs_in(#[trigger] terms[j], hay) {
        let j = choose|j: int| 0 <= j < terms.len() && occurs_in(#[trigger] terms[j], hay);
        assert(occurs_in(terms[j], haystack(title, summary)));
    }
}

/// The recency windows: a dated document whose age is `d` whole days (as
/// chrono counts them) passes the recency condition exactly when `d` is at
/// most 1 for `Day`, 7 for `Week`, 31 for `Month` and 366 for `Year`; a wider
/// window admits every document a narrower one does.
pub proof fn law_recency_windows(p: Timestamp, now: Timestamp, d: i64)
    requires
        chrono_days_between(now, p) == Some(d),
    ensures
        passes_dates(Some(p), Some(Recency::Day), None, None, now) <==> d <= 1,
        passes_dates(Some(p), Some(Recency::Week), None, None, now) <==> d <= 7,
        passes_dates(Some(p), Some(Recency::Month), None, None, now) <==> d <= 31,
        passes_dates(Some(p), Some(Recency::Year), None, None, now) <==> d <= 366,
        passes_dates(Some(p), Some(Recency::Day), None, None, now) ==> passes_dates(
            Some(p),
            Some(Recency::Week),
            None,
            None,
            now,
        ),
        passes_dates(Some(p), Some(Recency::Week), None, None, now) ==> passes_dates(
            Some(p),
            Some(Recency::Month),
            None,
            None,
            now,
        ),
        passes_dates(Some(p), Some(Recency::Month), None, None, now) ==> passes_dates(
            Some(p),
            Some(Recency::Year),
            None,
            None,
            now,
        ),
{
}

/// The selection is complete up to the limit: a passing document is left
/// out only when the selection already holds `limit` documents, all of
/// them earlier; so the selection is the first `min(limit, passing)`
/// passing positions, and when fewer than `limit` are selected every
/// passing document is.
pub proof fn law_selection_takes_first_passing(docs: Seq<Document>, q: SearchQuery, now: Timestamp)
    ensures
        forall|i: int|
            0 <= i < docs.len() && passes_dates(docs[i].published_at, q.recency, q.from_date, q.to_date, now)
                && !selected_positions(docs, q, now).contains(i) ==> {
                &&& selected_positions(docs, q, now).len() == q.limit
                &&& forall|k: int|
                    0 <= k < selected_positions(docs, q, now).len() ==> #[trigger] selected_positions(
                        docs,
                        q,
                        now,
                    )[k] < i
            },
        selected_positions(docs, q, now).len() < q.limit ==> forall|i: int|
            0 <= i < docs.len() && passes_dates(docs[i].published_at, q.recency, q.from_date, q.to_date, now)
                ==> selected_positions(docs, q, now).contains(i),
{
    let pred = |i: int| passes_dates(docs[i].published_at, q.recency, q.from_date, q.to_date, now);
    let all = Seq::new(docs.len(), |i: int| i);
    let passing = all.filter(pred);
    let sel = selected_positions(docs, q, now);
    lemma_filter_increasing(all, pred, 0, docs.len() as int);
    assert forall|i: int|
        0 <= i < docs.len() && passes_dates(docs[i].published_at, q.recency, q.from_date, q.to_date, now)
            && !sel.contains(i) implies {
        &&& sel.len() == q.limit
        &&& forall|k: int| 0 <= k < sel.len() ==> #[trigger] sel[k] < i
    } by {
        assert(pred(all[i]));
        all.lemma_filter_contains(pred, i);
        assert(passing.contains(i));
        let m = choose|m: int| 0 <= m < passing.len() && passing[m] == i;
        if passing.len() <= q.limit {
            assert(sel == passing);
            assert(sel[m] == i);
        } else {
            assert(sel == passing.take(q.limit as int));
            if m < q.limit {
                assert(sel[m] == i);
            }
            assert forall|k: int| 0 <= k < sel.len() implies #[trigger] sel[k] < i by {
                assert(sel[k] == passing[k]);
            }
        }
    }
}

/// The first title, description and date of a record are kept: once a
/// field is non-empty, no later element changes it, and an element with
/// that name fills it while it is empty. Other elements never touch it.
pub proof fn law_record_keeps_first_fields(r: OaiRecordView, local: Seq<char>, val: Seq<char>)
    ensures
        r.description.len() > 0 ==> set_field(r, local, val).description == r.description,
        r.title.len() > 0 ==> set_field(r, local, val).title == r.title,
        r.date.len() > 0 ==> set_field(r, local, val).date == r.date,
        local != "description"@ ==> set_field(r, local, val).description == r.description,
        local == "description"@ && r.description.len() == 0 ==> set_field(r, local, val).description
            == val,
        local == "title"@ && r.title.len() == 0 ==> set_field(r, local, val).title == val,
        local == "date"@ && r.date.len() == 0 ==> set_field(r, local, val).date == val,
{
    reveal_strlit("title");
    reveal_strlit("creator");
    reveal_strlit("description");
    reveal_strlit("date");
    reveal_strlit("identifier");
    assert("title"@.len() == 5);
    assert("creator"@.len() == 7);
    assert("description"@.len() == 11);
    assert("date"@.len() == 4);
    assert("identifier"@.len() == 10);
}

/// A normalized video carries the publication date read from its
/// `publishedAt` text: the RFC 3339 instant when the trimmed text is one,
/// else the midnight of a bare `YYYY-MM-DD` date, else none. It links to
/// the watch page of its id, is fetched at `now`, and comes from YouTube.
pub proof fn law_youtube_doc_fields(it: YtItem, now: Timestamp)
    ensures
        rfc3339_instant(trim(it.published_at@)) matches Some(t) ==> youtube_doc(it, now).published_at
            == Some(t),
        rfc3339_instant(trim(it.published_at@)) is None ==> youtube_doc(it, now).published_at
            == ymd_midnight(trim(it.published_at@)),
        youtube_doc(it, now).url == "https://www.youtube.com/watch?v="@ + it.video_id@,
        youtube_doc(it, now).fetched_at == now,
        youtube_doc(it, now).source == SourceKind::Youtube,
        youtube_doc(it, now).sources == seq![SourceKind::Youtube],
        youtube_doc(it, now).title == collapse_ws(it.title@),
        it.description@.len() > 0 ==> youtube_doc(it, now).summary == Some(it.description@),
{
}

/// Filtering then mapping, one element at a time from the end.
proof fn lemma_filter_map_last<A, B>(s: Seq<A>, p: spec_fn(A) -> bool, f: spec_fn(A) -> B)
    requires
        s.len() > 0,
    ensures
        s.filter(p).map_values(f) == if p(s.last()) {
            s.drop_last().filter(p).map_values(f).push(f(s.last()))
        } else {
            s.drop_last().filter(p).map_values(f)
        },
{
    reveal_with_fuel(Seq::filter, 1);
    if p(s.last()) {
        assert(s.filter(p) == s.drop_last().filter(p).push(s.last()));
        assert(s.filter(p).map_values(f) =~= s.drop_last().filter(p).map_values(f).push(f(s.last())));
    } else {
        assert(s.filter(p) == s.drop_last().filter(p));
    }
}

/// A feed yields, in order, one document per entry passing the keyword
/// filter, and no other.
pub proof fn law_feed_docs_are_matching_entries(
    entries: Seq<FeedEntry>,
    source: SourceKind,
    language: Option<Seq<char>>,
    terms: Seq<Seq<char>>,
    now: Timestamp,
)
    ensures
        feed_docs(entries, source, language, terms, now) == entries.filter(
            |e: FeedEntry| keyword_match(terms, feed_title(e), feed_summary(e)),
        ).map_values(|e: FeedEntry| feed_doc(e, source, language, now)),
    decreases entries.len(),
{
    if entries.len() == 0 {
        assert(entries.filter(|e: FeedEntry| keyword_match(terms, feed_title(e), feed_summary(e)))
            =~= Seq::<FeedEntry>::empty()) by {
            reveal_with_fuel(Seq::filter, 1);
        }
        assert(feed_docs(entries, source, language, terms, now) =~= Seq::<DocView>::empty());
    } else {
        law_feed_docs_are_matching_entries(entries.drop_last(), source, language, terms, now);
        lemma_filter_map_last(
            entries,
            |e: FeedEntry| keyword_match(terms, feed_title(e), feed_summary(e)),
            |e: FeedEntry| feed_doc(e, source, language, now),
        );
    }
}

/// A feed entry's document: its title with whitespace collapsed, its first
/// link (else its id) as URL, its publication date (else its update date),
/// fetched at `now`, attributed to the feed's source; a blank or absent
/// filter text gives no filter words (every entry is kept).
pub proof fn law_feed_doc_fields(
    e: FeedEntry,
    source: SourceKind,
    language: Option<Seq<char>>,
    now: Timestamp,
    filter_text: Option<Seq<char>>,
)
    ensures
        e.published is Some ==> feed_doc(e, source, language, now).published_at == e.published,
        e.published is None ==> feed_doc(e, source, language, now).published_at == e.updated,
        e.links@.len() > 0 ==> feed_doc(e, source, language, now).url == e.links@[0]@,
        e.links@.len() == 0 ==> feed_doc(e, source, language, now).url == e.id@,
        e.title matches Some(t) ==> feed_doc(e, source, language, now).title == collapse_ws(t@),
        feed_doc(e, source, language, now).source == source,
        feed_doc(e, source, language, now).sources == seq![source],
        feed_doc(e, source, language, now).fetched_at == now,
        feed_doc(e, source, language, now).language == language,
        (e.summary is Some || e.content_body is Some) <==> feed_doc(e, source, language, now).summary
            is Some,
        (filter_text is None || (filter_text matches Some(t) && trim(t).len() == 0)) ==> filter_terms(
            filter_text,
        ).len() == 0,
        filter_text matches Some(t) ==> (trim(t).len() > 0 ==> filter_terms(filter_text) == words(
            t,
        ).map_values(|w: Seq<char>| str_lowercase(w))),
{
}

/// A search response yields, in order, one document per video with an id,
/// and no other.
pub proof fn law_youtube_docs_are_videos_with_ids(items: Seq<YtItem>, now: Timestamp)
    ensures
        youtube_docs(items, now) == items.filter(|it: YtItem| it.video_id@.len() > 0).map_values(
            |it: YtItem| youtube_doc(it, now),
        ),
    decreases items.len(),
{
    if items.len() == 0 {
        assert(items.filter(|it: YtItem| it.video_id@.len() > 0) =~= Seq::<YtItem>::empty()) by {
            reveal_with_fuel(Seq::filter, 1);
        }
        assert(youtube_docs(items, now) =~= Seq::<DocView>::empty());
    } else {
        law_youtube_docs_are_videos_with_ids(items.drop_last(), now);
        lemma_filter_map_last(
            items,
            |it: YtItem| it.video_id@.len() > 0,
            |it: YtItem| youtube_doc(it, now),
        );
    }
}

/// A Brave response yields, in order, one document per result with a URL,
/// and no other.
pub proof fn law_brave_docs_are_results_with_urls(rs: Seq<BraveResult>, now: Timestamp)
    ensures
        brave_docs(rs, now) == rs.filter(|r: BraveResult| r.url@.len() > 0).map_values(
            |r: BraveResult| brave_doc(r, now),
        ),
    decreases rs.len(),
{
    if rs.len() == 0 {
        assert(rs.filter(|r: BraveResult| r.url@.len() > 0) =~= Seq::<BraveResult>::empty()) by {
            reveal_with_fuel(Seq::filter, 1);
        }
        assert(brave_docs(rs, now) =~= Seq::<DocView>::empty());
    } else {
        law_brave_docs_are_results_with_urls(rs.drop_last(), now);
        lemma_filter_map_last(rs, |r: BraveResult| r.url@.len() > 0, |r: BraveResult| brave_doc(r, now));
    }
}

/// A Brave result's document: its URL as is, the title with whitespace
/// collapsed, the publication date read from the page age (the RFC 3339
/// instant, else a bare date at midnight, none without a page age), a
/// summary exactly when the description is non-empty, fetched at `now`,
/// from the web source.
pub proof fn law_brave_doc_fields(r: BraveResult, now: Timestamp)
    ensures
        brave_doc(r, now).url == r.url@,
        brave_doc(r, now).title == collapse_ws(r.title@),
        r.page_age is None ==> brave_doc(r, now).published_at is None,
        r.page_age matches Some(p) ==> (rfc3339_instant(trim(p@)) is Some ==> brave_doc(
            r,
            now,
        ).published_at == rfc3339_instant(trim(p@))),
        r.page_age matches Some(p) ==> (rfc3339_instant(trim(p@)) is None ==> brave_doc(
            r,
            now,
        ).published_at == ymd_midnight(trim(p@))),
        r.description@.len() > 0 <==> brave_doc(r, now).summary is Some,
        brave_doc(r, now).fetched_at == now,
        brave_doc(r, now).source == SourceKind::Web,
        brave_doc(r, now).sources == seq![SourceKind::Web],
{
}

/// A harvested record's document: the first title with whitespace
/// collapsed, the identifier as URL, the arXiv ID read from it, one author
/// per creator (name with whitespace collapsed), the date read from the
/// record's date (RFC 3339, else a bare date at midnight), a summary
/// exactly when the description is non-empty, from the arXiv source.
pub proof fn law_oai_doc_fields(r: OaiRecordView, language: Option<Seq<char>>, at: Timestamp)
    ensures
        oai_doc(r, language, at).title == collapse_ws(r.title),
        oai_doc(r, language, at).url == r.identifier,
        oai_doc(r, language, at).identity.arxiv_id == arxiv_id_of(r.identifier),
        oai_doc(r, language, at).authors.len() == r.creators.len(),
        forall|i: int|
            0 <= i < r.creators.len() ==> (#[trigger] oai_doc(r, language, at).authors[i]).name == collapse_ws(
                r.creators[i],
            ),
        rfc3339_instant(trim(r.date)) is Some ==> oai_doc(r, language, at).published_at == rfc3339_instant(
            trim(r.date),
        ),
        rfc3339_instant(trim(r.date)) is None ==> oai_doc(r, language, at).published_at == ymd_midnight(
            trim(r.date),
        ),
        r.description.len() > 0 <==> oai_doc(r, language, at).summary is Some,
        oai_doc(r, language, at).source == SourceKind::Arxiv,
        oai_doc(r, language, at).language == language,
{
}

/// An arXiv Atom entry's document: the entry id as URL and the arXiv ID
/// read from it, the title with whitespace collapsed, the RFC 3339
/// publication date (none when absent or unreadable), language `en`.
pub proof fn law_atom_doc_fields(e: AtomEntry, now: Timestamp)
    ensures
        atom_doc(e, now).url == e.id@,
        atom_doc(e, now).identity.arxiv_id == arxiv_id_of(e.id@),
        atom_doc(e, now).title == collapse_ws(e.title@),
        e.published is None ==> atom_doc(e, now).published_at is None,
        e.published matches Some(p) ==> atom_doc(e, now).published_at == rfc3339_instant(p@),
        e.summary is Some <==> atom_doc(e, now).summary is Some,
        atom_doc(e, now).language == Some("en"@),
        atom_doc(e, now).source == SourceKind::Arxiv,
        atom_doc(e, now).fetched_at == now,
{
}

/// The date bounds: a dated document passes `from_date` exactly when it is
/// not earlier, and `to_date` exactly when it is not later (seconds, then
/// nanoseconds, compared); an undated document passes both.
pub proof fn law_date_bounds(p: Timestamp, bound: Timestamp, now: Timestamp)
    ensures
        passes_dates(Some(p), None, Some(bound), None, now) <==> (p.secs > bound.secs || (p.secs
            == bound.secs && p.nanos >= bound.nanos)),
        passes_dates(Some(p), None, None, Some(bound), now) <==> (p.secs < bound.secs || (p.secs
            == bound.secs && p.nanos <= bound.nanos)),
        passes_dates(None, None, Some(bound), Some(bound), now),
{
}

/// Freshness by age: a document published on the day (or later) scores
/// 1000, within 3 days 800, within a week 600, within 30 days 300, older
/// 100, and an undated one 0; a dated document always outranks an undated
/// one.
pub proof fn law_freshness_by_age(p: Timestamp, now: Timestamp, d: i64)
    requires
        chrono_days_between(now, p) == Some(d),
    ensures
        d <= 0 ==> freshness_of(Some(p), now) == 1000,
        1 <= d <= 3 ==> freshness_of(Some(p), now) == 800,
        4 <= d <= 7 ==> freshness_of(Some(p), now) == 600,
        8 <= d <= 30 ==> freshness_of(Some(p), now) == 300,
        d > 30 ==> freshness_of(Some(p), now) == 100,
        freshness_of(Some(p), now) > freshness_of(None, now),
        freshness_of(None, now) == 0,
{
}

/// Source authority ranks arXiv above blogs, blogs above news, news above
/// the web and the web above YouTube (900, 850, 800, 550, 450).
pub proof fn law_authority_order()
    ensures
        authority_of(SourceKind::Arxiv) == 900,
        authority_of(SourceKind::Blog) == 850,
        authority_of(SourceKind::News) == 800,
        authority_of(SourceKind::Web) == 550,
        authority_of(SourceKind::Youtube) == 450,
        authority_of(SourceKind::Arxiv) > authority_of(SourceKind::Blog),
        authority_of(SourceKind::Blog) > authority_of(SourceKind::News),
        authority_of(SourceKind::News) > authority_of(SourceKind::Web),
        authority_of(SourceKind::Web) > authority_of(SourceKind::Youtube),
{
}

/// The number of results each API is asked for is the query's limit,
/// raised to at least one and capped at the API's maximum (YouTube 50,
/// Brave 20; arXiv has no cap).
pub proof fn law_request_sizes(limit: usize)
    ensures
        1 <= youtube_max_results(limit) <= 50,
        1 <= limit <= 50 ==> youtube_max_results(limit) == limit,
        limit > 50 ==> youtube_max_results(limit) == 50,
        1 <= brave_count(limit) <= 20,
        1 <= limit <= 20 ==> brave_count(limit) == limit,
        limit > 20 ==> brave_count(limit) == 20,
        arxiv_max_results(limit) >= 1,
        limit >= 1 ==> arxiv_max_results(limit) == limit,
        limit == 0 ==> youtube_max_results(limit) == 1 && brave_count(limit) == 1 && arxiv_max_results(
            limit,
        ) == 1,
{
}

/// The decision on an arXiv response: a 429 with attempts left is always
/// retried, after `Retry-After` seconds when given (else the backoff,
/// which doubles from the base delay up to 30 seconds); a success status
/// reads the body; anything else fails with `arXiv HTTP <status>`.
pub proof fn law_arxiv_step(
    r: FetchStep,
    status: u16,
    attempt: u32,
    max_retries: u32,
    retry_after_secs: Option<u64>,
    base: u128,
)
    requires
        is_arxiv_step(r, status, attempt, max_retries, retry_after_secs, base),
    ensures
        status == 429 && attempt < max_retries ==> r is Retry,
        r matches FetchStep::Retry(w) ==> (retry_after_secs matches Some(s) ==> w == s * 1_000_000_000),
        r matches FetchStep::Retry(w) ==> (retry_after_secs is None ==> w <= 30_000_000_000 && (attempt
            == 0 && base <= 30_000_000_000 ==> w == base)),
        (status != 429 || attempt >= max_retries) && 200 <= status <= 299 ==> r is ReadBody,
        (status != 429 || attempt >= max_retries) && !(200 <= status <= 299) ==> (r matches FetchStep::Fail(
            FetchError::Http(m),
        ) && m@ == "arXiv HTTP "@ + decimal(status as nat)),
        status == 429 && attempt >= max_retries ==> !(r is ReadBody) && !(r is Retry),
{
    if attempt == 0 {
        assert(backoff_factor(attempt) == 1);
        assert(base * backoff_factor(attempt) == base);
        assert(base <= 30_000_000_000 ==> backoff_of(base, attempt) == base);
    }
    assert(backoff_of(base, attempt) <= 30_000_000_000);
}

} // verus!
