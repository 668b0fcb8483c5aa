//! Multi-source retrieval core: a single document model, normalization,
//! identity and near-duplicate merging, rank-fusion bookkeeping, and the
//! parsing and normalization of every source's responses.

pub mod cache;
pub mod dedup;
pub mod engine;
pub mod error;
pub mod external;
pub mod fusion;
pub mod model;
pub mod normalize;
pub mod properties;
pub mod sources;
pub mod ratelimit;
pub mod source;
pub mod text;
