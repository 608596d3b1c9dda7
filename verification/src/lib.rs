//! Structured personal-memory layer over a wide-column key/value store.
//!
//! Memories are documents filed under a `category` (partition key) and a
//! `key` (sort key), with typed attributes drawn from a per-category schema.
//! The crate provides the memory engine itself: the predefined category
//! catalog, client-side TTL handling, the backend facade with an in-process
//! store, schema and index management, the natural-language pipeline that
//! turns model output into typed documents and query plans, the query
//! executor with its broadening fallback, and the promote/prune lifecycle.

pub mod catalog;
pub mod doc;
pub mod error;
pub mod executor;
pub mod lifecycle;
pub mod llm;
pub mod nl;
pub mod params;
pub mod schema_mgr;
pub mod store;
pub mod text;
pub mod time;
pub mod ttl;

use vstd::prelude::*;

verus! {

/// Default table name used for all memories (no namespace).
pub const TABLE_NAME: &'static str = "memories";

/// Resolve the table name from an optional namespace.
///
/// - `None` gives the backward-compatible default `"memories"`.
/// - `Some(ns)` gives `"memories_"` followed by the namespace.
pub fn resolve_table_name(namespace: Option<&str>) -> (r: String)
    ensures
        match namespace {
            Some(ns) => r@ == "memories_"@ + ns@,
            None => r@ == "memories"@,
        },
{
    match namespace {
        Some(ns) => {
            let mut s = String::from_str("memories_");
            s.append(ns);
            s
        }
        None => String::from_str("memories"),
    }
}

} // verus!
