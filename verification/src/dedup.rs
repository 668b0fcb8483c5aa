//! Identity-based duplicate removal. The same document indexed by several
//! sources is recognized by identifier priority (DOI, arXiv ID, canonical
//! URL, title hash) and merged; near duplicates are caught by MinHash-LSH.

use vstd::prelude::*;

use crate::external::{chars_of, lowercase_str, str_lowercase, string_of};
use crate::model::{doc_views, extra_views, DocView, Document, IdentityView, SourceKind};
use crate::normalize::{alnum_lower, alnum_lowercase, fnv1a_64, fnv1a_spec};
use crate::text::{append_chars, char_seqs, decimal, decimal_chars, split_whitespace, words};
use vstd::utf8::encode_utf8;

verus! {

/// The identity key of a document: `doi:` and the lowercased DOI, else
/// `arxiv:` and the arXiv ID, else `url:` and the lowercased canonical URL,
/// else `title:` and the decimal title hash.
pub open spec fn identity_key_of(id: IdentityView) -> Seq<char> {
    match id.doi {
        Some(d) => "doi:"@ + str_lowercase(d),
        None => match id.arxiv_id {
            Some(a) => "arxiv:"@ + a,
            None => match id.canonical_url {
                Some(u) => "url:"@ + str_lowercase(u),
                None => "title:"@ + decimal(id.title_hash as nat),
            },
        },
    }
}

/// The document's identity key; priority DOI, arXiv ID, canonical URL,
/// title hash.
pub fn identity_key(d: &Document) -> (r: String)
    ensures
        r@ == identity_key_of(d.identity@),
{
    let mut out: Vec<char>;
    if let Some(doi) = &d.identity.doi {
        out = chars_of("doi:");
        let low = lowercase_str(doi.as_str());
        append_chars(&mut out, &chars_of(low.as_str()));
    } else if let Some(ax) = &d.identity.arxiv_id {
        out = chars_of("arxiv:");
        append_chars(&mut out, &chars_of(ax.as_str()));
    } else if let Some(u) = &d.identity.canonical_url {
        out = chars_of("url:");
        let low = lowercase_str(u.as_str());
        append_chars(&mut out, &chars_of(low.as_str()));
    } else {
        out = chars_of("title:");
        append_chars(&mut out, &decimal_chars(d.identity.title_hash));
    }
    string_of(out.as_slice())
}

/// `a` if it is present, else `b`.
pub open spec fn fill<T>(a: Option<T>, b: Option<T>) -> Option<T> {
    if a is None {
        b
    } else {
        a
    }
}

/// `acc` extended, in order, by each element of `xs` not yet present.
pub open spec fn add_new_sources(acc: Seq<SourceKind>, xs: Seq<SourceKind>) -> Seq<SourceKind>
    decreases xs.len(),
{
    if xs.len() == 0 {
        acc
    } else {
        add_new_sources(
            if acc.contains(xs[0]) {
                acc
            } else {
                acc.push(xs[0])
            },
            xs.drop_first(),
        )
    }
}

/// Whether some entry of `acc` has key `k`.
pub open spec fn has_key(acc: Seq<(Seq<char>, serde_json::Value)>, k: Seq<char>) -> bool {
    exists|j: int| 0 <= j < acc.len() && (#[trigger] acc[j]).0 == k
}

/// `acc` extended, in order, by each entry of `xs` whose key is not yet present.
pub open spec fn add_new_entries(
    acc: Seq<(Seq<char>, serde_json::Value)>,
    xs: Seq<(Seq<char>, serde_json::Value)>,
) -> Seq<(Seq<char>, serde_json::Value)>
    decreases xs.len(),
{
    if xs.len() == 0 {
        acc
    } else {
        add_new_entries(
            if has_key(acc, xs[0].0) {
                acc
            } else {
                acc.push(xs[0])
            },
            xs.drop_first(),
        )
    }
}

/// `base` with `other` merged in: absent fields filled from `other`,
/// contributing sources accumulated, metadata kept under existing keys.
pub open spec fn merged(base: DocView, other: DocView) -> DocView {
    DocView {
        identity: IdentityView {
            doi: fill(base.identity.doi, other.identity.doi),
            arxiv_id: fill(base.identity.arxiv_id, other.identity.arxiv_id),
            canonical_url: fill(base.identity.canonical_url, other.identity.canonical_url),
            title_hash: base.identity.title_hash,
        },
        authors: if base.authors.len() == 0 {
            other.authors
        } else {
            base.authors
        },
        published_at: fill(base.published_at, other.published_at),
        summary: fill(base.summary, other.summary),
        content: fill(base.content, other.content),
        sources: add_new_sources(base.sources, other.sources),
        extra: add_new_entries(base.extra, other.extra),
        ..base
    }
}

/// Merges a duplicate into `base`: fills its absent fields, accumulates the
/// contributing sources and keeps metadata under keys `base` lacks.
pub fn merge_docs(base: &mut Document, other: Document)
    ensures
        final(base)@ == merged(old(base)@, other@),
{
    let Document {
        identity: oid,
        source: _,
        title: _,
        url: _,
        authors: oauthors,
        published_at: opub,
        fetched_at: _,
        summary: osum,
        content: ocontent,
        language: _,
        tags: _,
        sources: osources,
        extra: oextra,
    } = other;
    if base.summary.is_none() {
        base.summary = osum;
    }
    if base.content.is_none() {
        base.content = ocontent;
    }
    if base.published_at.is_none() {
        base.published_at = opub;
    }
    if base.authors.len() == 0 {
        base.authors = oauthors;
    }
    if base.identity.doi.is_none() {
        base.identity.doi = oid.doi;
    }
    if base.identity.arxiv_id.is_none() {
        base.identity.arxiv_id = oid.arxiv_id;
    }
    if base.identity.canonical_url.is_none() {
        base.identity.canonical_url = oid.canonical_url;
    }
    add_sources(&mut base.sources, osources);
    add_entries(&mut base.extra, oextra);
}

/// Appends, in order, each source of `xs` that `acc` does not hold yet.
pub fn add_sources(acc: &mut Vec<SourceKind>, xs: Vec<SourceKind>)
    ensures
        final(acc)@ == add_new_sources(old(acc)@, xs@),
{
    let mut rest = xs;
    while rest.len() > 0
        invariant
            add_new_sources(old(acc)@, xs@) == add_new_sources(acc@, rest@),
        decreases rest@.len(),
    {
        let ghost pending = rest@;
        let s = rest.remove(0);
        assert(rest@ =~= pending.drop_first());
        let mut present = false;
        let mut j: usize = 0;
        while j < acc.len()
            invariant
                j <= acc@.len(),
                present == exists|k: int| 0 <= k < j && acc@[k] == s,
            decreases acc@.len() - j,
        {
            if acc[j] == s {
                present = true;
            }
            j += 1;
        }
        assert(present == acc@.contains(s));
        if !present {
            acc.push(s);
        }
    }
}

/// Appends, in order, each entry of `xs` whose key `acc` does not hold yet.
pub fn add_entries(acc: &mut Vec<(String, serde_json::Value)>, xs: Vec<(String, serde_json::Value)>)
    ensures
        extra_views(final(acc)@) == add_new_entries(extra_views(old(acc)@), extra_views(xs@)),
{
    let mut more = xs;
    while more.len() > 0
        invariant
            add_new_entries(extra_views(old(acc)@), extra_views(xs@)) == add_new_entries(
                extra_views(acc@),
                extra_views(more@),
            ),
        decreases more@.len(),
    {
        let ghost before = extra_views(acc@);
        let ghost pending = extra_views(more@);
        let e = more.remove(0);
        assert(extra_views(more@) =~= pending.drop_first());
        let mut present = false;
        let mut j: usize = 0;
        while j < acc.len()
            invariant
                j <= acc@.len(),
                before == extra_views(acc@),
                present == exists|k: int| 0 <= k < j && (#[trigger] before[k]).0 == e.0@,
            decreases acc@.len() - j,
        {
            assert(before[j as int].0 == acc@[j as int].0@);
            if acc[j].0 == e.0 {
                present = true;
            }
            j += 1;
        }
        assert(present == has_key(before, e.0@));
        if !present {
            acc.push(e);
            assert(extra_views(acc@) =~= before.push(pending[0]));
        }
    }
}

/// Position of the first occurrence of `k` in `keys`, or -1.
pub open spec fn key_index(keys: Seq<Seq<char>>, k: Seq<char>) -> int
    decreases keys.len(),
{
    if keys.len() == 0 {
        -1
    } else if keys[0] == k {
        0
    } else {
        let r = key_index(keys.drop_first(), k);
        if r < 0 {
            -1
        } else {
            r + 1
        }
    }
}

/// `key_index` finds the first occurrence, or reports that there is none.
pub proof fn lemma_key_index(keys: Seq<Seq<char>>, k: Seq<char>)
    ensures
        -1 <= key_index(keys, k) < keys.len(),
        key_index(keys, k) >= 0 ==> keys[key_index(keys, k)] == k && forall|m: int|
            0 <= m < key_index(keys, k) ==> keys[m] != k,
        key_index(keys, k) < 0 ==> forall|m: int| 0 <= m < keys.len() ==> keys[m] != k,
    decreases keys.len(),
{
    if keys.len() > 0 {
        lemma_key_index(keys.drop_first(), k);
        if keys[0] != k {
            assert forall|m: int| 0 < m < keys.len() implies keys[m] == keys.drop_first()[m - 1] by {}
        }
    }
}

/// Finds the first key equal to `k`.
pub fn find_key(keys: &Vec<String>, k: &String) -> (r: Option<usize>)
    ensures
        match r {
            Some(i) => key_index(crate::model::string_views(keys@), k@) == i as int,
            None => key_index(crate::model::string_views(keys@), k@) == -1,
        },
{
    let ghost kv = crate::model::string_views(keys@);
    proof {
        lemma_key_index(kv, k@);
    }
    let mut j: usize = 0;
    while j < keys.len()
        invariant
            j <= keys@.len(),
            kv == crate::model::string_views(keys@),
            -1 <= key_index(kv, k@) < kv.len(),
            key_index(kv, k@) >= 0 ==> kv[key_index(kv, k@)] == k@,
            key_index(kv, k@) >= 0 ==> forall|m: int| 0 <= m < key_index(kv, k@) ==> kv[m] != k@,
            key_index(kv, k@) < 0 ==> forall|m: int| 0 <= m < kv.len() ==> kv[m] != k@,
            forall|m: int| 0 <= m < j ==> kv[m] != k@,
        decreases keys@.len() - j,
    {
        assert(kv[j as int] == keys@[j as int]@);
        if keys[j] == *k {
            return Some(j);
        }
        j += 1;
    }
    None
}

/// One step of identity merging: `d` merges into the entry with its key, or
/// is appended with its key.
pub open spec fn merge_step(
    st: (Seq<Seq<char>>, Seq<DocView>),
    d: DocView,
) -> (Seq<Seq<char>>, Seq<DocView>) {
    let k = identity_key_of(d.identity);
    let i = key_index(st.0, k);
    if i >= 0 {
        (st.0, st.1.update(i, merged(st.1[i], d)))
    } else {
        (st.0.push(k), st.1.push(d))
    }
}

/// Identity merging of a document sequence, in order: the first document
/// with each key is kept in place and later ones with the same key are
/// merged into it. Returns the keys and the merged documents.
pub open spec fn merge_by_identity(docs: Seq<DocView>) -> (Seq<Seq<char>>, Seq<DocView>)
    decreases docs.len(),
{
    if docs.len() == 0 {
        (seq![], seq![])
    } else {
        merge_step(merge_by_identity(docs.drop_last()), docs.last())
    }
}

/// Merges a document into the entry of `out` holding its identity key, or
/// appends it with its key.
fn absorb(keys: &mut Vec<String>, out: &mut Vec<Document>, doc: Document) -> (pos: usize)
    requires
        old(keys)@.len() == old(out)@.len(),
    ensures
        final(keys)@.len() == final(out)@.len(),
        (crate::model::string_views(final(keys)@), doc_views(final(out)@)) == merge_step(
            (crate::model::string_views(old(keys)@), doc_views(old(out)@)),
            doc@,
        ),
        pos < final(out)@.len(),
        key_index(crate::model::string_views(old(keys)@), identity_key_of(doc@.identity)) >= 0
            ==> pos as int == key_index(
            crate::model::string_views(old(keys)@),
            identity_key_of(doc@.identity),
        ),
        key_index(crate::model::string_views(old(keys)@), identity_key_of(doc@.identity)) < 0
            ==> pos == old(out)@.len(),
        key_index(crate::model::string_views(old(keys)@), identity_key_of(doc@.identity)) >= 0
            ==> final(out)@.len() == old(out)@.len(),
        key_index(crate::model::string_views(old(keys)@), identity_key_of(doc@.identity)) < 0
            ==> final(out)@.len() == old(out)@.len() + 1,
{
    let key = identity_key(&doc);
    let ghost kv = crate::model::string_views(keys@);
    let ghost ov = doc_views(out@);
    proof {
        lemma_key_index(kv, key@);
    }
    match find_key(keys, &key) {
        Some(i) => {
            let mut existing = out.remove(i);
            merge_docs(&mut existing, doc);
            out.insert(i, existing);
            assert(doc_views(out@) =~= ov.update(i as int, merged(ov[i as int], doc@)));
            i
        },
        None => {
            let n = out.len();
            keys.push(key);
            out.push(doc);
            assert(crate::model::string_views(keys@) =~= kv.push(identity_key_of(doc@.identity)));
            assert(doc_views(out@) =~= ov.push(doc@));
            n
        },
    }
}

/// Merges duplicates by identity key, keeping the order in which each
/// identity first appears (ranking is left to the caller or to fusion).
pub fn dedup(docs: Vec<Document>) -> (r: Vec<Document>)
    ensures
        doc_views(r@) == merge_by_identity(doc_views(docs@)).1,
{
    let ghost all = doc_views(docs@);
    let mut rest = docs;
    let mut keys: Vec<String> = Vec::new();
    let mut out: Vec<Document> = Vec::new();
    let ghost mut i: int = 0;
    assert(all.take(0) =~= Seq::<DocView>::empty());
    assert(crate::model::string_views(keys@) =~= Seq::<Seq<char>>::empty());
    assert(doc_views(out@) =~= Seq::<DocView>::empty());
    while rest.len() > 0
        invariant
            0 <= i <= all.len(),
            doc_views(rest@) == all.skip(i),
            keys@.len() == out@.len(),
            (crate::model::string_views(keys@), doc_views(out@)) == merge_by_identity(
                all.take(i),
            ),
        decreases rest@.len(),
    {
        let ghost pending = rest@;
        let d = rest.remove(0);
        assert(doc_views(pending)[0] == pending[0]@);
        assert(doc_views(rest@) =~= doc_views(pending).drop_first());
        assert(doc_views(rest@) =~= all.skip(i + 1));
        assert(d@ == all[i]);
        assert(all.take(i + 1).drop_last() =~= all.take(i));
        absorb(&mut keys, &mut out, d);
        proof {
            i = i + 1;
        }
    }
    assert(all.take(i) =~= all);
    out
}

/// A fused entry: the merged document and, in the order they were met, the
/// (list index, rank) positions at which its identity appeared.
pub struct FusedDoc {
    pub doc: Document,
    pub hits: Vec<(usize, usize)>,
}

/// Every document of the lists with its list index and rank, list by list.
pub open spec fn ranked(lists: Seq<Seq<DocView>>) -> Seq<(usize, usize, DocView)>
    decreases lists.len(),
{
    if lists.len() == 0 {
        seq![]
    } else {
        ranked(lists.drop_last()) + Seq::new(
            lists.last().len(),
            |r: int| ((lists.len() - 1) as usize, r as usize, lists.last()[r]),
        )
    }
}

/// One step of fusion bookkeeping: identity merging as in [`merge_step`],
/// with the position of each contribution recorded on its entry.
pub open spec fn fuse_step(
    st: (Seq<Seq<char>>, Seq<DocView>, Seq<Seq<(usize, usize)>>),
    item: (usize, usize, DocView),
) -> (Seq<Seq<char>>, Seq<DocView>, Seq<Seq<(usize, usize)>>) {
    let k = identity_key_of(item.2.identity);
    let i = key_index(st.0, k);
    let m = merge_step((st.0, st.1), item.2);
    if i >= 0 {
        (m.0, m.1, st.2.update(i, st.2[i].push((item.0, item.1))))
    } else {
        (m.0, m.1, st.2.push(seq![(item.0, item.1)]))
    }
}

/// Fusion bookkeeping over positioned documents, in order.
pub open spec fn fuse_fold(items: Seq<(usize, usize, DocView)>) -> (
    Seq<Seq<char>>,
    Seq<DocView>,
    Seq<Seq<(usize, usize)>>,
)
    decreases items.len(),
{
    if items.len() == 0 {
        (seq![], seq![], seq![])
    } else {
        fuse_step(fuse_fold(items.drop_last()), items.last())
    }
}

/// Models of lists of documents.
pub open spec fn list_views(lists: Seq<Vec<Document>>) -> Seq<Seq<DocView>> {
    lists.map_values(|l: Vec<Document>| doc_views(l@))
}

/// Merges documents across per-source ranked lists by identity, keeping
/// first-appearance order, and records for each merged entry every
/// (list index, rank) at which it appeared. Rank-based scores are computed
/// from these positions.
pub fn fuse_groups(per_source: Vec<Vec<Document>>) -> (r: Vec<FusedDoc>)
    ensures
        ({
            let st = fuse_fold(ranked(list_views(per_source@)));
            &&& r@.len() == st.1.len()
            &&& forall|i: int|
                0 <= i < r@.len() ==> (#[trigger] r@[i]).doc@ == st.1[i] && r@[i].hits@ == st.2[i]
        }),
{
    let ghost lists = list_views(per_source@);
    let mut rest_lists = per_source;
    let mut keys: Vec<String> = Vec::new();
    let mut out: Vec<Document> = Vec::new();
    let mut hits: Vec<Vec<(usize, usize)>> = Vec::new();
    let mut li: usize = 0;
    let nlists = rest_lists.len();
    assert(lists.take(0) =~= Seq::<Seq<DocView>>::empty());
    assert(crate::model::string_views(keys@) =~= Seq::<Seq<char>>::empty());
    assert(doc_views(out@) =~= Seq::<DocView>::empty());
    while rest_lists.len() > 0
        invariant
            li <= lists.len(),
            lists.len() == nlists,
            list_views(rest_lists@) == lists.skip(li as int),
            keys@.len() == out@.len(),
            hits@.len() == out@.len(),
            ({
                let st = fuse_fold(ranked(lists.take(li as int)));
                &&& crate::model::string_views(keys@) == st.0
                &&& doc_views(out@) == st.1
                &&& forall|g: int| 0 <= g < hits@.len() ==> (#[trigger] hits@[g])@ == st.2[g]
                &&& st.2.len() == hits@.len()
            }),
        decreases rest_lists@.len(),
    {
        let ghost pending_lists = rest_lists@;
        let list = rest_lists.remove(0);
        assert(list_views(pending_lists)[0] == doc_views(pending_lists[0]@));
        assert(list_views(rest_lists@) =~= list_views(pending_lists).drop_first());
        assert(list_views(rest_lists@) =~= lists.skip(li + 1));
        let ghost lv = doc_views(list@);
        assert(lv == lists[li as int]);
        let ghost done = ranked(lists.take(li as int));
        let llen = list.len();
        let mut rest = list;
        let mut rank: usize = 0;
        assert(done + Seq::new(0, |q: int| (li, q as usize, lv[q])) =~= done);
        while rest.len() > 0
            invariant
                li < lists.len(),
                lv == lists[li as int],
                done == ranked(lists.take(li as int)),
                rank <= lv.len(),
                lv.len() == llen,
                doc_views(rest@) == lv.skip(rank as int),
                keys@.len() == out@.len(),
                hits@.len() == out@.len(),
                ({
                    let st = fuse_fold(
                        done + Seq::new(rank as nat, |q: int| (li, q as usize, lv[q])),
                    );
                    &&& crate::model::string_views(keys@) == st.0
                    &&& doc_views(out@) == st.1
                    &&& forall|g: int| 0 <= g < hits@.len() ==> (#[trigger] hits@[g])@ == st.2[g]
                    &&& st.2.len() == hits@.len()
                }),
            decreases rest@.len(),
        {
            let ghost prefix = done + Seq::new(rank as nat, |q: int| (li, q as usize, lv[q]));
            let ghost next = done + Seq::new((rank + 1) as nat, |q: int| (li, q as usize, lv[q]));
            assert(next.drop_last() =~= prefix);
            let ghost st = fuse_fold(prefix);
            let ghost hv = hits@;
            let ghost pending = rest@;
            let d = rest.remove(0);
            assert(doc_views(pending)[0] == pending[0]@);
            assert(doc_views(rest@) =~= doc_views(pending).drop_first());
            assert(doc_views(rest@) =~= lv.skip(rank + 1));
            assert(d@ == lv[rank as int]);
            assert(next.last() == (li, rank, d@));
            let pos = absorb(&mut keys, &mut out, d);
            if pos < hits.len() {
                let mut h = hits.remove(pos);
                h.push((li, rank));
                hits.insert(pos, h);
                assert forall|g: int| 0 <= g < hits@.len() implies (#[trigger] hits@[g])@ == fuse_fold(next).2[g] by {
                    if g != pos {
                        assert(hits@[g] == hv[g]);
                    }
                }
            } else {
                let mut h: Vec<(usize, usize)> = Vec::new();
                h.push((li, rank));
                hits.push(h);
                assert(h@ =~= seq![(li, rank)]);
                assert forall|g: int| 0 <= g < hits@.len() implies (#[trigger] hits@[g])@ == fuse_fold(next).2[g] by {
                    if g < hv.len() {
                        assert(hits@[g] == hv[g]);
                    }
                }
            }
            rank += 1;
        }
        assert(lv.skip(rank as int).len() == 0);
        assert(lists.take(li + 1).drop_last() =~= lists.take(li as int));
        assert(ranked(lists.take(li + 1)) =~= done + Seq::new(rank as nat, |q: int| (li, q as usize, lv[q])));
        li += 1;
    }
    assert(lists.take(li as int) =~= lists);
    let mut r: Vec<FusedDoc> = Vec::new();
    let ghost st = fuse_fold(ranked(lists));
    let ghost ov = doc_views(out@);
    let ghost hv = hits@;
    let total = out.len();
    let mut k: usize = 0;
    while out.len() > 0
        invariant
            k <= total,
            out@.len() == total - k,
            hits@.len() == total - k,
            total == st.1.len(),
            ov == st.1,
            ov.len() == total,
            hv.len() == total,
            forall|g: int| 0 <= g < total ==> (#[trigger] hv[g])@ == st.2[g],
            forall|g: int| 0 <= g < out@.len() ==> (#[trigger] out@[g])@ == ov[g + k],
            forall|g: int| 0 <= g < hits@.len() ==> (#[trigger] hits@[g]) == hv[g + k],
            r@.len() == k,
            forall|g: int| 0 <= g < k ==> (#[trigger] r@[g]).doc@ == st.1[g] && r@[g].hits@ == st.2[g],
        decreases out@.len(),
    {
        let d = out.remove(0);
        let h = hits.remove(0);
        assert(d@ == ov[k as int]);
        assert(h == hv[k as int]);
        r.push(FusedDoc { doc: d, hits: h });
        k += 1;
    }
    r
}

/// Labels after merging the classes of `x` and `y`: every element labelled
/// like `x` takes the label of `y`.
pub open spec fn relabel(labels: Seq<int>, x: int, y: int) -> Seq<int> {
    Seq::new(
        labels.len(),
        |i: int|
            if labels[i] == labels[x] {
                labels[y]
            } else {
                labels[i]
            },
    )
}

/// Disjoint-set forest over `0..n` with path compression. Its model is the
/// label of every element: the representative of its class.
pub struct UnionFind {
    parent: Vec<usize>,
    labels: Ghost<Seq<int>>,
    rank: Ghost<Seq<nat>>,
}

impl UnionFind {
    /// The representative of each element's class.
    pub closed spec fn labels(&self) -> Seq<int> {
        self.labels@
    }

    /// Structural soundness: every element's label is a root reached by
    /// following parents, and ranks strictly decrease toward the root.
    pub closed spec fn wf(&self) -> bool {
        let n = self.parent@.len();
        &&& self.labels@.len() == n
        &&& self.rank@.len() == n
        &&& forall|i: int| 0 <= i < n ==> (#[trigger] self.parent@[i]) < n
        &&& forall|i: int|
            0 <= i < n ==> 0 <= #[trigger] self.labels@[i] < n && self.parent@[self.labels@[i]]
                == self.labels@[i]
        &&& forall|i: int|
            0 <= i < n && #[trigger] self.parent@[i] == i ==> self.labels@[i] == i
        &&& forall|i: int|
            0 <= i < n && #[trigger] self.parent@[i] != i ==> self.labels@[self.parent@[i] as int]
                == self.labels@[i] && self.rank@[i] > self.rank@[self.parent@[i] as int]
                && self.rank@[i] > self.rank@[self.labels@[i]]
    }

    /// The parent of element `i` in the forest.
    pub closed spec fn parent_of(&self, i: int) -> int {
        self.parent@[i] as int
    }

    /// Number of elements.
    pub closed spec fn size(&self) -> nat {
        self.parent@.len()
    }

    /// Labels are representatives: one per element, in range, each labelling
    /// itself and being its own parent (a root of the forest); an element
    /// that is its own parent labels itself.
    pub proof fn lemma_labels_len(&self)
        requires
            self.wf(),
        ensures
            self.labels().len() == self.size(),
            forall|i: int| 0 <= i < self.size() ==> 0 <= #[trigger] self.labels()[i] < self.size(),
            forall|i: int|
                0 <= i < self.size() ==> #[trigger] self.labels()[self.labels()[i]]
                    == self.labels()[i],
            forall|i: int|
                0 <= i < self.size() ==> self.parent_of(#[trigger] self.labels()[i])
                    == self.labels()[i],
            forall|i: int|
                0 <= i < self.size() && #[trigger] self.parent_of(i) == i ==> self.labels()[i] == i,
    {
        assert forall|i: int| 0 <= i < self.size() implies #[trigger] self.labels()[self.labels()[i]]
            == self.labels()[i] by {
            let r = self.labels@[i];
            assert(self.parent@[r] == r);
        }
    }

    /// `n` singleton classes.
    pub fn new(n: usize) -> (r: Self)
        ensures
            r.wf(),
            r.size() == n,
            r.labels() == Seq::new(n as nat, |i: int| i),
    {
        let mut parent: Vec<usize> = Vec::new();
        let mut i: usize = 0;
        while i < n
            invariant
                i <= n,
                parent@ == Seq::new(i as nat, |k: int| k as usize),
            decreases n - i,
        {
            parent.push(i);
            i += 1;
            assert(parent@ =~= Seq::new(i as nat, |k: int| k as usize));
        }
        UnionFind {
            parent,
            labels: Ghost(Seq::new(n as nat, |k: int| k)),
            rank: Ghost(Seq::new(n as nat, |k: int| 0nat)),
        }
    }

    /// The representative of `x`'s class; compresses the path it walks, so
    /// that `x` then points straight at its representative.
    pub fn find(&mut self, x: usize) -> (r: usize)
        requires
            old(self).wf(),
            x < old(self).size(),
        ensures
            final(self).wf(),
            final(self).size() == old(self).size(),
            final(self).labels() == old(self).labels(),
            r as int == old(self).labels()[x as int],
            final(self).parent_of(x as int) == r,
            final(self).parent_of(r as int) == r,
    {
        let mut r = x;
        while self.parent[r] != r
            invariant
                self.wf(),
                r < self.parent@.len(),
                self.labels@[r as int] == self.labels@[x as int],
            decreases self.rank@[r as int],
        {
            r = self.parent[r];
        }
        let mut cur = x;
        let ghost labels0 = self.labels@;
        let ghost n = self.parent@.len();
        while self.parent[cur] != r
            invariant
                self.wf(),
                self.labels@ == labels0,
                self.parent@.len() == n,
                cur < n,
                r < n,
                self.parent@[r as int] == r,
                self.labels@[r as int] == r,
                self.labels@[cur as int] == r,
                x < n,
                cur == x || self.parent@[x as int] == r,
            decreases self.rank@[cur as int],
        {
            let next = self.parent[cur];
            assert(cur != r);
            assert(self.parent@[cur as int] != cur);
            let ghost p0 = self.parent@;
            self.parent.set(cur, r);
            assert forall|i: int| 0 <= i < n && #[trigger] self.parent@[i] != i implies self.labels@[
                self.parent@[i] as int] == self.labels@[i] && self.rank@[i] > self.rank@[self.parent@[
                i] as int] && self.rank@[i] > self.rank@[self.labels@[i]] by {
                if i != cur {
                    assert(self.parent@[i] == p0[i]);
                }
            }
            assert forall|i: int| 0 <= i < n implies 0 <= #[trigger] self.labels@[i] < n
                && self.parent@[self.labels@[i]] == self.labels@[i] by {
                assert(p0[self.labels@[i]] == self.labels@[i]);
            }
            cur = next;
        }
        r
    }

    /// Merges the classes of `x` and `y`: every element labelled like `x`
    /// takes `y`'s label.
    pub fn union(&mut self, x: usize, y: usize)
        requires
            old(self).wf(),
            x < old(self).size(),
            y < old(self).size(),
        ensures
            final(self).wf(),
            final(self).size() == old(self).size(),
            final(self).labels() == relabel(old(self).labels(), x as int, y as int),
    {
        let ghost l0 = self.labels@;
        let rx = self.find(x);
        let ry = self.find(y);
        if rx != ry {
            let ghost n = self.parent@.len();
            let ghost k0 = self.rank@;
            let ghost p0 = self.parent@;
            let ghost new_labels = Seq::new(n, |i: int| if l0[i] == rx { ry as int } else { l0[i] });
            let ghost new_rank = Seq::new(
                n,
                |i: int|
                    if l0[i] == rx {
                        k0[i] + k0[ry as int] + 1
                    } else {
                        k0[i]
                    },
            );
            self.parent.set(rx, ry);
            self.labels = Ghost(new_labels);
            self.rank = Ghost(new_rank);
            assert(l0[rx as int] == rx);
            assert(l0[ry as int] == ry);
            assert forall|i: int| 0 <= i < n implies (#[trigger] self.parent@[i]) < n by {
                assert(i != rx ==> self.parent@[i] == p0[i]);
            }
            assert forall|i: int| 0 <= i < n implies 0 <= #[trigger] self.labels@[i] < n
                && self.parent@[self.labels@[i]] == self.labels@[i] by {
                assert(p0[l0[i]] == l0[i]);
            }
            assert forall|i: int| 0 <= i < n && #[trigger] self.parent@[i] == i implies self.labels@[
                i] == i by {
                if i != rx {
                    assert(p0[i] == i);
                }
            }
            assert forall|i: int| 0 <= i < n && #[trigger] self.parent@[i] != i implies self.labels@[
                self.parent@[i] as int] == self.labels@[i] && self.rank@[i] > self.rank@[self.parent@[
                i] as int] && self.rank@[i] > self.rank@[self.labels@[i]] by {
                if i == rx {
                } else {
                    assert(self.parent@[i] == p0[i]);
                    assert(p0[i] != i);
                    assert(l0[p0[i] as int] == l0[i]);
                }
            }
            assert(self.labels@ =~= relabel(l0, x as int, y as int));
        } else {
            assert(l0 =~= relabel(l0, x as int, y as int));
        }
    }
}

/// Number of MinHash slots in a signature.
pub const MINHASH_N: usize = 64;

/// Number of LSH bands (each covers `MINHASH_N / LSH_BANDS` slots).
pub const LSH_BANDS: usize = 16;

/// The text whose word pairs are shingled: the title, and the summary after
/// a space when there is one.
pub open spec fn shingle_text(d: DocView) -> Seq<char> {
    match d.summary {
        Some(s) => d.title + seq![' '] + s,
        None => d.title,
    }
}

/// The words reduced to their lowercased alphanumeric characters, empty
/// results dropped.
pub open spec fn cleaned_words(ws: Seq<Seq<char>>) -> Seq<Seq<char>>
    decreases ws.len(),
{
    if ws.len() == 0 {
        seq![]
    } else {
        let prev = cleaned_words(ws.drop_last());
        let w = alnum_lower(ws.last());
        if w.len() > 0 {
            prev.push(w)
        } else {
            prev
        }
    }
}

/// Word bigrams of the cleaned words of title and summary, each written
/// `first second`; with fewer than two words, the words themselves.
pub open spec fn shingles_of(d: DocView) -> Seq<Seq<char>> {
    let ws = cleaned_words(words(shingle_text(d)));
    if ws.len() < 2 {
        ws
    } else {
        Seq::new((ws.len() - 1) as nat, |i: int| ws[i] + seq![' '] + ws[i + 1])
    }
}

/// The shingles of a document.
pub fn shingles(d: &Document) -> (r: Vec<Vec<char>>)
    ensures
        char_seqs(r@) == shingles_of(d@),
{
    let mut text = chars_of(d.title.as_str());
    if let Some(s) = &d.summary {
        text.push(' ');
        append_chars(&mut text, &chars_of(s.as_str()));
    }
    assert(text@ =~= shingle_text(d@));
    let ws = split_whitespace(&text);
    let ghost wv = char_seqs(ws@);
    let mut cleaned: Vec<Vec<char>> = Vec::new();
    let mut i: usize = 0;
    while i < ws.len()
        invariant
            i <= ws@.len(),
            wv == char_seqs(ws@),
            char_seqs(cleaned@) == cleaned_words(wv.take(i as int)),
        decreases ws@.len() - i,
    {
        assert(wv.take(i + 1).drop_last() =~= wv.take(i as int));
        assert(wv[i as int] == ws@[i as int]@);
        let w = alnum_lowercase(&ws[i]);
        if w.len() > 0 {
            let ghost before = char_seqs(cleaned@);
            cleaned.push(w);
            assert(char_seqs(cleaned@) =~= before.push(w@));
        }
        i += 1;
    }
    assert(wv.take(i as int) =~= wv);
    let ghost cw = char_seqs(cleaned@);
    if cleaned.len() < 2 {
        return cleaned;
    }
    let mut r: Vec<Vec<char>> = Vec::new();
    let mut k: usize = 0;
    let clen = cleaned.len();
    while k < clen - 1
        invariant
            clen == cleaned@.len(),
            cleaned@.len() >= 2,
            cw == char_seqs(cleaned@),
            k + 1 <= cleaned@.len(),
            char_seqs(r@) == Seq::new(k as nat, |j: int| cw[j] + seq![' '] + cw[j + 1]),
        decreases cleaned@.len() - k,
    {
        let mut pair = Vec::new();
        append_chars(&mut pair, &cleaned[k]);
        pair.push(' ');
        append_chars(&mut pair, &cleaned[k + 1]);
        assert(pair@ =~= cw[k as int] + seq![' '] + cw[k + 1]);
        let ghost before = char_seqs(r@);
        r.push(pair);
        assert(char_seqs(r@) =~= before.push(pair@));
        k += 1;
        assert(char_seqs(r@) =~= Seq::new(k as nat, |j: int| cw[j] + seq![' '] + cw[j + 1]));
    }
    r
}

/// The slot-`i` hash family applied to a shingle hash.
pub open spec fn mix(base: u64, i: u64) -> u64 {
    let a = vstd::wrapping::u64_specs::wrapping_mul(i, 0x9E3779B97F4A7C15u64) | 1u64;
    let b = vstd::wrapping::u64_specs::wrapping_add(
        vstd::wrapping::u64_specs::wrapping_mul(i, 0xBF58476D1CE4E5B9u64),
        0x2Bu64,
    );
    vstd::wrapping::u64_specs::wrapping_add(vstd::wrapping::u64_specs::wrapping_mul(base, a), b)
}

/// Minimum of slot `i`'s hash over the shingle hashes (`u64::MAX` if none).
pub open spec fn slot_min(hashes: Seq<u64>, i: u64) -> u64
    decreases hashes.len(),
{
    if hashes.len() == 0 {
        u64::MAX
    } else {
        let m = slot_min(hashes.drop_last(), i);
        let h = mix(hashes.last(), i);
        if h < m {
            h
        } else {
            m
        }
    }
}

/// FNV-1a hashes of the UTF-8 encoding of each shingle.
pub open spec fn shingle_hashes(sh: Seq<Seq<char>>) -> Seq<u64> {
    sh.map_values(|s: Seq<char>| fnv1a_spec(encode_utf8(s)))
}

/// The MinHash signature: per slot, the minimum slot hash over the
/// shingles; a document without shingles gets `seed + i` in slot `i`, with
/// the seed hashed from its URL, so such documents do not collide.
pub open spec fn minhash_spec(d: DocView) -> Seq<u64> {
    let sh = shingles_of(d);
    if sh.len() == 0 {
        let seed = fnv1a_spec(encode_utf8(d.url));
        Seq::new(
            MINHASH_N as nat,
            |i: int| vstd::wrapping::u64_specs::wrapping_add(seed, i as u64),
        )
    } else {
        Seq::new(MINHASH_N as nat, |i: int| slot_min(shingle_hashes(sh), i as u64))
    }
}

/// The MinHash signature of a document.
pub fn minhash_sig(d: &Document) -> (sig: Vec<u64>)
    ensures
        sig@ == minhash_spec(d@),
{
    let sh = shingles(d);
    if sh.len() == 0 {
        let url = string_of(chars_of(d.url.as_str()).as_slice());
        let seed = fnv1a_64(url.as_str().as_bytes());
        let mut sig: Vec<u64> = Vec::new();
        let mut i: usize = 0;
        while i < MINHASH_N
            invariant
                i <= MINHASH_N,
                seed == fnv1a_spec(encode_utf8(d@.url)),
                sig@ == Seq::new(
                    i as nat,
                    |k: int| vstd::wrapping::u64_specs::wrapping_add(seed, k as u64),
                ),
            decreases MINHASH_N - i,
        {
            sig.push(seed.wrapping_add(i as u64));
            i += 1;
            assert(sig@ =~= Seq::new(
                i as nat,
                |k: int| vstd::wrapping::u64_specs::wrapping_add(seed, k as u64),
            ));
        }
        return sig;
    }
    let ghost hs = shingle_hashes(char_seqs(sh@));
    let mut sig: Vec<u64> = Vec::new();
    let mut i: usize = 0;
    while i < MINHASH_N
        invariant
            i <= MINHASH_N,
            sig@ == Seq::new(i as nat, |k: int| u64::MAX),
        decreases MINHASH_N - i,
    {
        sig.push(u64::MAX);
        i += 1;
        assert(sig@ =~= Seq::new(i as nat, |k: int| u64::MAX));
    }
    let mut s: usize = 0;
    while s < sh.len()
        invariant
            s <= sh@.len(),
            hs == shingle_hashes(char_seqs(sh@)),
            sig@ == Seq::new(MINHASH_N as nat, |k: int| slot_min(hs.take(s as int), k as u64)),
        decreases sh@.len() - s,
    {
        let text = string_of(sh[s].as_slice());
        let base = fnv1a_64(text.as_str().as_bytes());
        assert(base == hs[s as int]);
        let ghost prev = sig@;
        assert(hs.take(s + 1).drop_last() =~= hs.take(s as int));
        update_slots(&mut sig, base);
        assert forall|k: int| 0 <= k < MINHASH_N implies sig@[k] == slot_min(hs.take(s + 1), k as u64) by {
            assert(hs.take(s + 1).last() == base);
        }
        s += 1;
        assert(sig@ =~= Seq::new(MINHASH_N as nat, |k: int| slot_min(hs.take(s as int), k as u64)));
    }
    assert(hs.take(s as int) =~= hs);
    sig
}

/// Lowers each slot to the slot hash of `base` where that is smaller.
fn update_slots(sig: &mut Vec<u64>, base: u64)
    requires
        old(sig)@.len() == MINHASH_N,
    ensures
        final(sig)@.len() == MINHASH_N,
        forall|k: int|
            0 <= k < MINHASH_N ==> final(sig)@[k] == if mix(base, k as u64) < old(sig)@[k] {
                mix(base, k as u64)
            } else {
                old(sig)@[k]
            },
{
    let mut i: usize = 0;
    while i < MINHASH_N
        invariant
            i <= MINHASH_N,
            sig@.len() == MINHASH_N,
            forall|k: int|
                0 <= k < i ==> sig@[k] == if mix(base, k as u64) < old(sig)@[k] {
                    mix(base, k as u64)
                } else {
                    old(sig)@[k]
                },
            forall|k: int| i <= k < MINHASH_N ==> sig@[k] == old(sig)@[k],
        decreases MINHASH_N - i,
    {
        let iu = i as u64;
        let a = iu.wrapping_mul(0x9E3779B97F4A7C15u64) | 1u64;
        let b = iu.wrapping_mul(0xBF58476D1CE4E5B9u64).wrapping_add(0x2Bu64);
        let h = base.wrapping_mul(a).wrapping_add(b);
        assert(h == mix(base, iu));
        if h < sig[i] {
            sig.set(i, h);
        }
        i += 1;
    }
}

/// Little-endian bytes of a 64-bit word.
pub open spec fn le_bytes(v: u64) -> Seq<u8> {
    Seq::new(8, |k: int| ((v >> ((8 * k) as u64)) & 0xffu64) as u8)
}

/// Little-endian bytes of the four signature slots of band `b`.
pub open spec fn band_bytes(sig: Seq<u64>, b: int) -> Seq<u8> {
    le_bytes(sig[4 * b]) + le_bytes(sig[4 * b + 1]) + le_bytes(sig[4 * b + 2]) + le_bytes(
        sig[4 * b + 3],
    )
}

/// Little-endian bytes of the first `w` slots of band `b`.
pub open spec fn band_prefix(sig: Seq<u64>, b: int, w: int) -> Seq<u8>
    decreases w,
{
    if w <= 0 {
        seq![]
    } else {
        band_prefix(sig, b, w - 1) + le_bytes(sig[4 * b + w - 1])
    }
}

/// The LSH bucket hash of band `b`.
pub open spec fn band_hash(sig: Seq<u64>, b: int) -> u64 {
    fnv1a_spec(band_bytes(sig, b))
}

/// Whether two signatures fall into a common LSH bucket (some band hashes alike).
pub open spec fn share_band(s1: Seq<u64>, s2: Seq<u64>) -> bool {
    exists|b: int| 0 <= b < LSH_BANDS && #[trigger] band_hash(s1, b) == band_hash(s2, b)
}

/// Number of the first `k` slots in which two signatures agree.
pub open spec fn agree_count(s1: Seq<u64>, s2: Seq<u64>, k: int) -> nat
    decreases k,
{
    if k <= 0 {
        0
    } else {
        agree_count(s1, s2, k - 1) + if s1[k - 1] == s2[k - 1] {
            1nat
        } else {
            0nat
        }
    }
}

/// Whether two documents are near duplicates: they share an LSH bucket and
/// their signatures agree in at least `min_matches` slots.
pub open spec fn near_pair(s1: Seq<u64>, s2: Seq<u64>, min_matches: u64) -> bool {
    share_band(s1, s2) && agree_count(s1, s2, MINHASH_N as int) >= min_matches
}

/// The band hashes of a signature.
pub fn band_hashes(sig: &Vec<u64>) -> (r: Vec<u64>)
    requires
        sig@.len() == MINHASH_N,
    ensures
        r@ == Seq::new(LSH_BANDS as nat, |b: int| band_hash(sig@, b)),
{
    let mut r: Vec<u64> = Vec::new();
    let mut b: usize = 0;
    while b < LSH_BANDS
        invariant
            b <= LSH_BANDS,
            sig@.len() == MINHASH_N,
            r@ == Seq::new(b as nat, |q: int| band_hash(sig@, q)),
        decreases LSH_BANDS - b,
    {
        let mut bytes: Vec<u8> = Vec::new();
        let mut w: usize = 0;
        while w < 4
            invariant
                w <= 4,
                b < LSH_BANDS,
                sig@.len() == MINHASH_N,
                bytes@ == band_prefix(sig@, b as int, w as int),
            decreases 4 - w,
        {
            let v = sig[4 * b + w];
            let ghost before = bytes@;
            let mut k: u64 = 0;
            while k < 8
                invariant
                    k <= 8,
                    bytes@ == before + le_bytes(v).take(k as int),
                decreases 8 - k,
            {
                bytes.push(((v >> (8 * k)) & 0xffu64) as u8);
                assert(le_bytes(v)[k as int] == ((v >> (8 * k)) & 0xffu64) as u8);
                k += 1;
                assert(bytes@ =~= before + le_bytes(v).take(k as int));
            }
            assert(le_bytes(v).take(8) =~= le_bytes(v));
            w += 1;
        }
        assert(bytes@ =~= band_bytes(sig@, b as int)) by {
            reveal_with_fuel(band_prefix, 5);
        }
        r.push(fnv1a_64(bytes.as_slice()));
        b += 1;
        assert(r@ =~= Seq::new(b as nat, |q: int| band_hash(sig@, q)));
    }
    r
}

/// Number of slots in which two signatures agree.
pub fn agreement(s1: &Vec<u64>, s2: &Vec<u64>) -> (r: u64)
    requires
        s1@.len() == MINHASH_N,
        s2@.len() == MINHASH_N,
    ensures
        r == agree_count(s1@, s2@, MINHASH_N as int),
{
    let mut c: u64 = 0;
    let mut i: usize = 0;
    while i < MINHASH_N
        invariant
            i <= MINHASH_N,
            s1@.len() == MINHASH_N,
            s2@.len() == MINHASH_N,
            c == agree_count(s1@, s2@, i as int),
            c <= i,
        decreases MINHASH_N - i,
    {
        if s1[i] == s2[i] {
            c += 1;
        }
        i += 1;
    }
    c
}

/// The pairs `(x, x + 1)`, ..., `(x, x + count)`.
pub open spec fn pairs_from(x: int, count: int) -> Seq<(int, int)> {
    Seq::new(count as nat, |k: int| (x, x + 1 + k))
}

/// All pairs `(a, c)` with `a < x` and `a < c < n`, in lexicographic order.
pub open spec fn pairs_before(n: int, x: int) -> Seq<(int, int)>
    decreases x,
{
    if x <= 0 {
        seq![]
    } else {
        pairs_before(n, x - 1) + pairs_from(x - 1, n - x)
    }
}

/// Class labels after merging, in order, every listed pair of near duplicates.
pub open spec fn union_labels(
    sigs: Seq<Seq<u64>>,
    min_matches: u64,
    pairs: Seq<(int, int)>,
    n: nat,
) -> Seq<int>
    decreases pairs.len(),
{
    if pairs.len() == 0 {
        Seq::new(n, |i: int| i)
    } else {
        let l = union_labels(sigs, min_matches, pairs.drop_last(), n);
        let p = pairs.last();
        if near_pair(sigs[p.0], sigs[p.1], min_matches) {
            relabel(l, p.0, p.1)
        } else {
            l
        }
    }
}

/// The MinHash signatures of the documents.
pub open spec fn signatures_of(docs: Seq<DocView>) -> Seq<Seq<u64>> {
    docs.map_values(|d: DocView| minhash_spec(d))
}

/// Near-duplicate classes: each document's class label after merging the
/// classes of every near-duplicate pair, pairs taken in lexicographic order.
/// Two documents are in one class exactly when a chain of near-duplicate
/// pairs links them (see
/// [`crate::properties::law_near_classes_are_linked_components`]).
pub open spec fn near_dup_labels(docs: Seq<DocView>, min_matches: u64) -> Seq<int> {
    union_labels(
        signatures_of(docs),
        min_matches,
        pairs_before(docs.len() as int, docs.len() as int),
        docs.len(),
    )
}

/// Whether the band hashes of two documents meet in some band.
fn share_bucket(b1: &Vec<u64>, b2: &Vec<u64>, s1: Ghost<Seq<u64>>, s2: Ghost<Seq<u64>>) -> (r: bool)
    requires
        b1@ == Seq::new(LSH_BANDS as nat, |b: int| band_hash(s1@, b)),
        b2@ == Seq::new(LSH_BANDS as nat, |b: int| band_hash(s2@, b)),
    ensures
        r == share_band(s1@, s2@),
{
    let mut i: usize = 0;
    while i < LSH_BANDS
        invariant
            i <= LSH_BANDS,
            b1@ == Seq::new(LSH_BANDS as nat, |b: int| band_hash(s1@, b)),
            b2@ == Seq::new(LSH_BANDS as nat, |b: int| band_hash(s2@, b)),
            forall|b: int| 0 <= b < i ==> band_hash(s1@, b) != band_hash(s2@, b),
        decreases LSH_BANDS - i,
    {
        if b1[i] == b2[i] {
            assert(band_hash(s1@, i as int) == band_hash(s2@, i as int));
            return true;
        }
        i += 1;
    }
    false
}

/// Each document's near-duplicate class label (the representative the
/// union-find settles on). Signatures are compared pairwise, in
/// lexicographic order of the pair, for every pair sharing an LSH bucket.
pub fn near_dup_classes(docs: &Vec<Document>, min_matches: u64) -> (r: Vec<usize>)
    ensures
        r@.len() == docs@.len(),
        forall|i: int|
            0 <= i < r@.len() ==> #[trigger] r@[i] as int == near_dup_labels(
                doc_views(docs@),
                min_matches,
            )[i],
{
    let n = docs.len();
    let ghost dv = doc_views(docs@);
    let ghost sv = signatures_of(dv);
    let mut sigs: Vec<Vec<u64>> = Vec::new();
    let mut bands: Vec<Vec<u64>> = Vec::new();
    let mut i: usize = 0;
    while i < n
        invariant
            i <= n,
            n == docs@.len(),
            dv == doc_views(docs@),
            sv == signatures_of(dv),
            sigs@.len() == i,
            bands@.len() == i,
            forall|k: int| 0 <= k < i ==> (#[trigger] sigs@[k])@ == sv[k],
            forall|k: int|
                0 <= k < i ==> (#[trigger] bands@[k])@ == Seq::new(
                    LSH_BANDS as nat,
                    |b: int| band_hash(sv[k], b),
                ),
        decreases n - i,
    {
        let sig = minhash_sig(&docs[i]);
        assert(sig@ == sv[i as int]);
        let bh = band_hashes(&sig);
        sigs.push(sig);
        bands.push(bh);
        i += 1;
    }
    let mut uf = UnionFind::new(n);
    let mut x: usize = 0;
    assert(uf.labels() == union_labels(sv, min_matches, pairs_before(n as int, 0), n as nat));
    while x < n
        invariant
            x <= n,
            n == docs@.len(),
            sv.len() == n,
            sigs@.len() == n,
            bands@.len() == n,
            forall|k: int| 0 <= k < n ==> (#[trigger] sigs@[k])@ == sv[k],
            forall|k: int|
                0 <= k < n ==> (#[trigger] bands@[k])@ == Seq::new(
                    LSH_BANDS as nat,
                    |b: int| band_hash(sv[k], b),
                ),
            forall|k: int| 0 <= k < n ==> (#[trigger] sv[k]).len() == MINHASH_N,
            uf.wf(),
            uf.size() == n,
            uf.labels() == union_labels(sv, min_matches, pairs_before(n as int, x as int), n as nat),
        decreases n - x,
    {
        let mut y: usize = x + 1;
        let ghost done = pairs_before(n as int, x as int);
        assert(done + pairs_from(x as int, 0) =~= done);
        while y < n
            invariant
                x < n,
                x + 1 <= y <= n,
                n == docs@.len(),
                sv.len() == n,
                sigs@.len() == n,
                bands@.len() == n,
                forall|k: int| 0 <= k < n ==> (#[trigger] sigs@[k])@ == sv[k],
                forall|k: int|
                    0 <= k < n ==> (#[trigger] bands@[k])@ == Seq::new(
                        LSH_BANDS as nat,
                        |b: int| band_hash(sv[k], b),
                    ),
                forall|k: int| 0 <= k < n ==> (#[trigger] sv[k]).len() == MINHASH_N,
                done == pairs_before(n as int, x as int),
                uf.wf(),
                uf.size() == n,
                uf.labels() == union_labels(
                    sv,
                    min_matches,
                    done + pairs_from(x as int, y - x - 1),
                    n as nat,
                ),
            decreases n - y,
        {
            let ghost prev = done + pairs_from(x as int, y - x - 1);
            let ghost next = done + pairs_from(x as int, y - x);
            assert(next.drop_last() =~= prev);
            assert(next.last() == (x as int, y as int));
            let shared = share_bucket(&bands[x], &bands[y], Ghost(sv[x as int]), Ghost(sv[y as int]));
            if shared {
                let agree = agreement(&sigs[x], &sigs[y]);
                if agree >= min_matches {
                    uf.union(x, y);
                }
            }
            y += 1;
        }
        assert(pairs_before(n as int, x + 1) =~= done + pairs_from(x as int, y - x - 1));
        x += 1;
    }
    let ghost labels = uf.labels();
    assert(labels == near_dup_labels(dv, min_matches));
    let mut r: Vec<usize> = Vec::new();
    let mut k: usize = 0;
    while k < n
        invariant
            k <= n,
            uf.wf(),
            uf.size() == n,
            uf.labels() == labels,
            r@.len() == k,
            forall|q: int| 0 <= q < k ==> #[trigger] r@[q] as int == labels[q],
        decreases n - k,
    {
        let l = uf.find(k);
        r.push(l);
        k += 1;
    }
    r
}

/// Merging classes keeps one label per element.
pub proof fn lemma_union_labels_len(
    sigs: Seq<Seq<u64>>,
    min_matches: u64,
    pairs: Seq<(int, int)>,
    n: nat,
)
    ensures
        union_labels(sigs, min_matches, pairs, n).len() == n,
    decreases pairs.len(),
{
    if pairs.len() > 0 {
        lemma_union_labels_len(sigs, min_matches, pairs.drop_last(), n);
    }
}

/// Whether `i` is the first element of its class.
pub open spec fn is_base(labels: Seq<int>, i: int) -> bool {
    forall|j: int| 0 <= j < i ==> labels[j] != labels[i]
}

/// The class of base `b` merged into `b` in index order, members below `upto`.
pub open spec fn class_merge(docs: Seq<DocView>, labels: Seq<int>, b: int, upto: int) -> DocView
    decreases upto - b,
{
    if upto <= b + 1 {
        docs[b]
    } else {
        let acc = class_merge(docs, labels, b, upto - 1);
        if labels[upto - 1] == labels[b] {
            merged(acc, docs[upto - 1])
        } else {
            acc
        }
    }
}

/// One document per class, in the order of the classes' first members:
/// the first member with the later members merged into it in index order.
pub open spec fn merge_classes(docs: Seq<DocView>, labels: Seq<int>) -> Seq<DocView> {
    Seq::new(docs.len(), |i: int| i).filter(|i: int| is_base(labels, i)).map_values(
        |b: int| class_merge(docs, labels, b, docs.len() as int),
    )
}

/// Models of optional documents.
pub open spec fn slot_views(s: Seq<Option<Document>>) -> Seq<Option<DocView>> {
    s.map_values(
        |o: Option<Document>|
            match o {
                Some(d) => Some(d@),
                None => None,
            },
    )
}

/// Near-duplicate merging by MinHash-LSH: documents whose identifiers differ
/// (a preprint and its published version, say) but whose title-and-summary
/// shingle signatures agree in at least `min_matches` of the 64 slots, and
/// share an LSH bucket, are merged; each class keeps its highest-ranked
/// (lowest-index) member as the base.
pub fn near_dedup(docs: Vec<Document>, min_matches: u64) -> (r: Vec<Document>)
    ensures
        doc_views(r@) == if docs@.len() < 2 {
            doc_views(docs@)
        } else {
            merge_classes(doc_views(docs@), near_dup_labels(doc_views(docs@), min_matches))
        },
{
    let n = docs.len();
    if n < 2 {
        return docs;
    }
    let labels = near_dup_classes(&docs, min_matches);
    let ghost dv = doc_views(docs@);
    let ghost l = near_dup_labels(dv, min_matches);
    let mut slots: Vec<Option<Document>> = Vec::new();
    let mut rest = docs;
    let mut i: usize = 0;
    while rest.len() > 0
        invariant
            i <= n,
            n == dv.len(),
            doc_views(rest@) == dv.skip(i as int),
            slot_views(slots@) == Seq::new(i as nat, |k: int| Some(dv[k])),
        decreases rest@.len(),
    {
        let ghost pending = rest@;
        let d = rest.remove(0);
        assert(doc_views(pending)[0] == pending[0]@);
        assert(doc_views(rest@) =~= doc_views(pending).drop_first());
        assert(doc_views(rest@) =~= dv.skip(i + 1));
        assert(d@ == dv[i as int]);
        let ghost before = slot_views(slots@);
        slots.push(Some(d));
        assert(slot_views(slots@) =~= before.push(Some(dv[i as int])));
        i += 1;
        assert(slot_views(slots@) =~= Seq::new(i as nat, |k: int| Some(dv[k])));
    }
    assert(dv.skip(i as int).len() == 0);
    proof {
        lemma_union_labels_len(signatures_of(dv), min_matches, pairs_before(n as int, n as int), n as nat);
    }
    let mut k: usize = 0;
    while k < n
        invariant
            k <= n,
            n == dv.len(),
            labels@.len() == n,
            l.len() == n,
            forall|q: int| 0 <= q < n ==> #[trigger] labels@[q] as int == l[q],
            slots@.len() == n,
            forall|q: int|
                0 <= q < n ==> #[trigger] slot_views(slots@)[q] == if is_base(l, q) {
                    Some(class_merge(dv, l, q, k as int))
                } else if q < k {
                    None
                } else {
                    Some(dv[q])
                },
        decreases n - k,
    {
        let mut b: usize = 0;
        while labels[b] != labels[k]
            invariant
                b <= k,
                k < n,
                labels@.len() == n,
                forall|q: int| 0 <= q < b ==> labels@[q] != labels@[k as int],
            decreases k - b,
        {
            b += 1;
        }
        assert(is_base(l, b as int)) by {
            assert forall|j: int| 0 <= j < b implies l[j] != l[b as int] by {
                assert(labels@[j] != labels@[k as int]);
            }
        }
        assert(b == k <==> is_base(l, k as int)) by {
            if b != k {
                assert(l[b as int] == l[k as int]);
            }
        }
        let ghost sv0 = slot_views(slots@);
        let ghost raw0 = slots@;
        if b != k {
            let other = slots.remove(k);
            slots.insert(k, None);
            assert(slots@ =~= raw0.update(k as int, None));
            assert(sv0[k as int] == Some(dv[k as int]));
            assert(sv0[b as int] == Some(class_merge(dv, l, b as int, k as int)));
            match other {
                Some(o) => {
                    let ghost raw1 = slots@;
                    let cur = slots.remove(b);
                    match cur {
                        Some(mut bd) => {
                            merge_docs(&mut bd, o);
                            slots.insert(b, Some(bd));
                            assert(slots@ =~= raw1.update(b as int, Some(bd)));
                            assert(slot_views(slots@) =~= sv0.update(k as int, None).update(
                                b as int,
                                Some(merged(class_merge(dv, l, b as int, k as int), dv[k as int])),
                            ));
                        },
                        None => {
                            slots.insert(b, None);
                        },
                    }
                },
                None => {},
            }
            assert(slot_views(slots@) =~= sv0.update(k as int, None).update(
                b as int,
                Some(merged(class_merge(dv, l, b as int, k as int), dv[k as int])),
            ));
        }
        assert forall|q: int| 0 <= q < n implies #[trigger] slot_views(slots@)[q] == if is_base(
            l,
            q,
        ) {
            Some(class_merge(dv, l, q, k + 1))
        } else if q < k + 1 {
            None
        } else {
            Some(dv[q])
        } by {
            if is_base(l, q) && q < k && q != b {
                if l[k as int] == l[q] {
                    if q < b {
                        assert(l[q] == l[b as int]);
                    } else {
                        assert(l[b as int] == l[q]);
                    }
                }
                assert(l[k as int] != l[q]);
            }
        }
        k += 1;
    }
    let mut out: Vec<Document> = Vec::new();
    let mut j: usize = 0;
    let ghost bases = Seq::new(n as nat, |q: int| q).filter(|q: int| is_base(l, q));
    while slots.len() > 0
        invariant
            j <= n,
            slots@.len() == n - j,
            forall|q: int|
                0 <= q < n - j ==> #[trigger] slot_views(slots@)[q] == if is_base(l, q + j) {
                    Some(class_merge(dv, l, q + j, n as int))
                } else {
                    None
                },
            doc_views(out@) == Seq::new(j as nat, |q: int| q).filter(|q: int| is_base(l, q)).map_values(
                |b: int| class_merge(dv, l, b, n as int),
            ),
        decreases slots@.len(),
    {
        let ghost sv0 = slot_views(slots@);
        let s0 = slots.remove(0);
        assert(sv0[0] == match s0 { Some(d) => Some(d@), None => None });
        assert forall|q: int| 0 <= q < n - (j + 1) implies #[trigger] slot_views(slots@)[q] == if is_base(l, q + (j + 1)) {
            Some(class_merge(dv, l, q + (j + 1), n as int))
        } else {
            None
        } by {
            assert(slot_views(slots@)[q] == sv0[q + 1]);
        }
        let ghost prev = Seq::new(j as nat, |q: int| q).filter(|q: int| is_base(l, q));
        assert(Seq::new((j + 1) as nat, |q: int| q).drop_last() =~= Seq::new(j as nat, |q: int| q));
        reveal_with_fuel(Seq::filter, 1);
        let ghost before = doc_views(out@);
        match s0 {
            Some(d) => {
                out.push(d);
                assert(doc_views(out@) =~= before.push(d@));
                assert(Seq::new((j + 1) as nat, |q: int| q).filter(|q: int| is_base(l, q)) =~= prev.push(j as int));
            },
            None => {
                assert(Seq::new((j + 1) as nat, |q: int| q).filter(|q: int| is_base(l, q)) =~= prev);
            },
        }
        j += 1;
        assert(doc_views(out@) =~= Seq::new(j as nat, |q: int| q).filter(|q: int| is_base(l, q)).map_values(
            |b: int| class_merge(dv, l, b, n as int),
        ));
    }
    out
}

/// Class labels as integers.
pub open spec fn label_ints(labels: Seq<usize>) -> Seq<int> {
    labels.map_values(|x: usize| x as int)
}

/// The positions of the classes' first members, in order: the documents
/// that [`near_dedup`] keeps as bases, given the labels of
/// [`near_dup_classes`].
pub fn class_bases(labels: &Vec<usize>) -> (r: Vec<usize>)
    ensures
        r@.map_values(|i: usize| i as int) == Seq::new(labels@.len(), |q: int| q).filter(
            |q: int| is_base(label_ints(labels@), q),
        ),
{
    let ghost l = label_ints(labels@);
    let mut r: Vec<usize> = Vec::new();
    let mut k: usize = 0;
    while k < labels.len()
        invariant
            k <= labels@.len(),
            l == label_ints(labels@),
            r@.map_values(|i: usize| i as int) == Seq::new(k as nat, |q: int| q).filter(
                |q: int| is_base(l, q),
            ),
        decreases labels@.len() - k,
    {
        let mut b: usize = 0;
        while labels[b] != labels[k]
            invariant
                b <= k,
                k < labels@.len(),
                forall|q: int| 0 <= q < b ==> labels@[q] != labels@[k as int],
            decreases k - b,
        {
            b += 1;
        }
        assert(b == k <==> is_base(l, k as int)) by {
            if b == k {
                assert forall|j: int| 0 <= j < k implies l[j] != l[k as int] by {
                    assert(labels@[j] != labels@[k as int]);
                }
            } else {
                assert(l[b as int] == l[k as int]);
            }
        }
        let ghost prev = Seq::new(k as nat, |q: int| q).filter(|q: int| is_base(l, q));
        assert(Seq::new((k + 1) as nat, |q: int| q).drop_last() =~= Seq::new(k as nat, |q: int| q));
        reveal_with_fuel(Seq::filter, 1);
        let ghost before = r@;
        if b == k {
            r.push(k);
            assert(r@.map_values(|i: usize| i as int) =~= before.map_values(|i: usize| i as int).push(k as int));
            assert(Seq::new((k + 1) as nat, |q: int| q).filter(|q: int| is_base(l, q)) =~= prev.push(k as int));
        } else {
            assert(Seq::new((k + 1) as nat, |q: int| q).filter(|q: int| is_base(l, q)) =~= prev);
        }
        k += 1;
    }
    r
}

} // verus!
