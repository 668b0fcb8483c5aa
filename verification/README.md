# rust_scholar_transformer

A multi-source retrieval core: documents from arXiv, news, blogs, YouTube and
web search are normalized into one document model, merged by identity and by
near-duplicate similarity, fused by rank, filtered by date and cached.

## Layout

- `src/` — the library, verified with Verus. Every function states its result
  in `ensures` over mathematical models (`Seq`, `Option`, views of the types):
  - `model.rs` — documents, identities, authors, queries, instants;
  - `text.rs`, `normalize.rs` — whitespace, titles, title hashes, HTML
    stripping, canonical URLs, dates;
  - `dedup.rs` — identity merging, rank-fusion bookkeeping, union-find,
    MinHash-LSH near-duplicate merging;
  - `fusion.rs` — freshness and authority signals;
  - `engine.rs` — source selection, outcome collection, date filter,
    selection of the top results, cache key;
  - `cache.rs`, `ratelimit.rs`, `source.rs` — expiry, request spacing,
    rate policies;
  - `sources/` — request parameters, status and retry decisions, and the
    normalization of each source's responses;
  - `properties.rs` — properties of the library as a whole, proved;
  - `external.rs` — the trusted boundary: each call into std or an outside
    crate (chrono, url, feed-rs, quick-xml, serde_json) with the contract it
    is believed to meet.
- `tests/` — tests of the library on concrete values.
- `app/` — the asynchronous shell: HTTP adapters (reqwest), concurrent
  fan-out (tokio, futures), caches (moka, redb), serialization (serde), the
  floating-point scores and their ordering, and the Python binding (pyo3).
