//! Incremental semantic indexing and graph synchronization for a personal
//! knowledge base.
//!
//! Documents are made of ordered content blocks. A background scheduler
//! discovers blocks whose content changed, computes a fixed-dimension
//! embedding for each, maintains a vector index keyed by block, and keeps a
//! document-level similarity graph consistent by applying minimal edge
//! additions and removals.

pub mod ai;
pub mod common;
pub mod config;
pub mod counting;
pub mod document;
pub mod embedding;
pub mod graph;
pub mod health;
pub mod note;
pub mod paths;
pub mod scheduler;
pub mod shortcuts;
pub mod store;
pub mod sync;
pub mod text;
pub mod vector_index;

use vstd::prelude::*;

verus! {

/// Number of coordinates in every embedding vector. One dimension is fixed
/// for the whole corpus; vectors of different lengths must never be mixed.
pub const EMBEDDING_DIMENSION: usize = 1024;

} // verus!
