//! A collection registry and request dispatch layer over an arrowdb vector store.
//!
//! The registry maps collection names to their dimension and to the store's
//! per-collection HNSW index; the dispatch layer validates insert and query
//! requests against it and shapes the responses sent back to clients.

pub mod dispatch;
pub mod outside;
pub mod registry;
