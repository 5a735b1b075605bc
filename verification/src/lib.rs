use vstd::prelude::*;

pub mod domain;
pub mod fcpcore;
pub mod lsp;
pub mod mcp;
pub mod resolver;
pub mod text;

verus! {
}
