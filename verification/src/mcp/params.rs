//! Parameters of the tools the server offers.
use vstd::prelude::*;

verus! {

/// Parameters of a query.
#[derive(Debug)]
pub struct QueryParams {
    /// A query operation string, e.g. 'def main @file:main.rs'
    pub input: String,
}

/// Parameters of a session action.
#[derive(Debug)]
pub struct SessionParams {
    /// Session action: 'open PATH', 'status', 'close'
    pub action: String,
}

/// Parameters of a batch of mutations.
#[derive(Debug)]
pub struct MutationParams {
    /// Mutation operation strings, e.g. 'rename Config Settings', 'extract validate @file:server.rs @lines:15-30'
    pub ops: Vec<String>,
}

/// Parameters of an enrichment request.
#[derive(Debug)]
pub struct EnrichParams {
    /// Absolute path to a Rust source file to enrich with diagnostics and symbols.
    pub path: String,
    /// Optional content hash; an unchanged file may be answered from a cache.
    pub content_hash: Option<String>,
}

/// Parameters of a help request: none.
#[derive(Debug)]
pub struct HelpParams {}

} // verus!
