//! Streaming deduplication of byte records: a bounded uniqueness cache and
//! the key extraction that decides what "the same record" means.

pub mod cache;
pub mod filter;
pub mod keyset;
pub mod laws;
pub mod pattern;
pub mod pipeline;
pub mod reader;
