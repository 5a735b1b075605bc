//! Fuzzy symbol search (not yet used; the language server's workspace symbol search does the
//! fuzzy matching).
use vstd::prelude::*;

verus! {

/// A fuzzy index of symbol names.
pub struct FuzzyIndex;

impl FuzzyIndex {
    /// An empty fuzzy index.
    pub fn new() -> (r: Self)
        ensures
            r == FuzzyIndex,
    {
        FuzzyIndex
    }
}

impl Default for FuzzyIndex {
    fn default() -> (r: Self)
        ensures
            r == FuzzyIndex,
    {
        Self::new()
    }
}

} // verus!
