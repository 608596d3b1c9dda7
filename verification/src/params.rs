//! Parameter records for the tool surfaces: plain data that the MCP tools
//! and the CLI marshal into the core operations.

use vstd::prelude::*;
use crate::doc::Document;

verus! {

/// Parameters for storing a memory item.
pub struct StoreParams {
    /// Memory category (partition key).
    pub category: String,
    /// Unique key within the category.
    pub key: String,
    /// Structured attributes.
    pub attributes: Document,
    /// Optional TTL (e.g. `24h`, `7d`, `2w`).
    pub ttl: Option<String>,
    /// Optional namespace override for this operation.
    pub namespace: Option<String>,
}

/// Parameters for retrieving a specific memory.
pub struct GetParams {
    pub category: String,
    pub key: String,
    pub namespace: Option<String>,
}

/// Parameters for querying memories in a category.
pub struct QueryParams {
    pub category: String,
    pub prefix: Option<String>,
    pub limit: Option<usize>,
    pub namespace: Option<String>,
}

/// Parameters for deleting a specific memory.
pub struct DeleteParams {
    pub category: String,
    pub key: String,
    pub namespace: Option<String>,
}

/// Parameters for listing categories or keys.
pub struct ListParams {
    pub category: Option<String>,
    pub namespace: Option<String>,
}

/// Parameters for showing schema definitions.
pub struct SchemaParams {
    pub category: Option<String>,
    pub namespace: Option<String>,
}

/// Parameters for promoting a memory (remove TTL, optionally move it).
pub struct PromoteParams {
    pub category: String,
    pub key: String,
    pub to_category: Option<String>,
    pub namespace: Option<String>,
}

/// Parameters for pruning expired memories.
pub struct PruneParams {
    pub category: Option<String>,
    pub namespace: Option<String>,
}

/// Parameters for initializing predefined schemas.
pub struct InitParams {
    pub namespace: Option<String>,
    pub force: Option<bool>,
}

/// Parameters for the natural-language store tool.
pub struct RememberParams {
    pub category: String,
    pub key: String,
    pub content: String,
    pub metadata: Option<String>,
}

/// Parameters for the natural-language retrieval tool.
pub struct RecallParams {
    pub category: Option<String>,
    pub prefix: Option<String>,
    pub query: Option<String>,
    pub limit: Option<usize>,
}

/// Parameters for removing a specific memory.
pub struct ForgetParams {
    pub category: String,
    pub key: String,
}

/// Parameters for browsing the memory structure.
pub struct DiscoverParams {
    pub category: Option<String>,
    pub limit: Option<usize>,
}

/// Parameters for defining a category schema.
pub struct DefineParams {
    pub category: String,
    pub description: String,
    pub attributes: String,
    pub auto_index: bool,
}

} // verus!
