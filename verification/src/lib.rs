//! A streaming file-discovery and content-search engine: parallel directory
//! traversal is driven by a caller, while this crate holds the verified core —
//! pattern compilation and caching, the composite predicate evaluator, the
//! line-oriented content searcher, result channels, and sort post-processing.

#![verifier::loop_isolation(false)]

use vstd::prelude::*;

pub mod content;
pub mod global_init;
pub mod matcher;
pub mod pattern_cache;
pub mod predicate;
pub mod query;
pub mod results;
pub mod simd_string;
pub mod sorting;
pub mod zero_copy_path;

verus! {

/// Capacity bound of the process-wide pattern cache.
pub const CACHE_SIZE: usize = 1000;

/// A failure raised synchronously at query start, before any traversal.
#[derive(Debug)]
pub enum QueryError {
    /// A glob or regex failed to compile; the message comes from the compiler.
    InvalidPattern(String),
    /// A bad sort key, empty roots, or unknown file-type code.
    InvalidArgument(String),
}

} // verus!
