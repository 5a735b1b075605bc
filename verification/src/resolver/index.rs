//! The in-memory symbol index.
use crate::lsp::types::{Location, Range, SymbolInformation, SymbolKind};
use crate::text::equals;
use vstd::prelude::*;

verus! {

/// A symbol known to the index.
#[derive(Debug, Clone)]
pub struct SymbolEntry {
    pub name: String,
    pub kind: SymbolKind,
    pub container_name: Option<String>,
    pub uri: String,
    pub range: Range,
    pub selection_range: Range,
}

/// A copy of an optional string.
pub fn copy_optional(s: &Option<String>) -> (r: Option<String>)
    ensures
        r == *s,
{
    match s {
        Some(t) => Some(t.clone()),
        None => None,
    }
}

impl SymbolEntry {
    /// A copy of the entry.
    pub fn duplicate(&self) -> (r: SymbolEntry)
        ensures
            r == *self,
    {
        SymbolEntry {
            name: self.name.clone(),
            kind: self.kind,
            container_name: copy_optional(&self.container_name),
            uri: self.uri.clone(),
            range: self.range,
            selection_range: self.selection_range,
        }
    }

    /// The entry seen as a workspace symbol: its name, kind, location and container.
    pub open spec fn as_information(self) -> SymbolInformation {
        SymbolInformation {
            name: self.name,
            kind: self.kind,
            location: Location { uri: self.uri, range: self.range },
            container_name: self.container_name,
        }
    }

    /// The entry as a workspace symbol.
    pub fn to_information(&self) -> (r: SymbolInformation)
        ensures
            r == self.as_information(),
    {
        SymbolInformation {
            name: self.name.clone(),
            kind: self.kind,
            location: Location { uri: self.uri.clone(), range: self.range },
            container_name: copy_optional(&self.container_name),
        }
    }
}

/// The entries named `name`, in the order they were inserted.
pub open spec fn entries_named(entries: Seq<SymbolEntry>, name: Seq<char>) -> Seq<SymbolEntry>
    decreases entries.len(),
{
    if entries.len() == 0 {
        seq![]
    } else if entries.last().name@ == name {
        entries_named(entries.drop_last(), name).push(entries.last())
    } else {
        entries_named(entries.drop_last(), name)
    }
}

/// Symbols of the workspace, looked up by name.
pub struct SymbolIndex {
    entries: Vec<SymbolEntry>,
}

impl View for SymbolIndex {
    type V = Seq<SymbolEntry>;

    closed spec fn view(&self) -> Seq<SymbolEntry> {
        self.entries@
    }
}

impl SymbolIndex {
    /// An empty index.
    pub fn new() -> (r: SymbolIndex)
        ensures
            r@ == Seq::<SymbolEntry>::empty(),
    {
        SymbolIndex { entries: Vec::new() }
    }

    /// Adds an entry.
    pub fn insert(&mut self, entry: SymbolEntry)
        ensures
            final(self)@ == old(self)@.push(entry),
    {
        self.entries.push(entry);
    }

    /// Number of entries.
    pub fn size(&self) -> (r: usize)
        ensures
            r == self@.len(),
    {
        self.entries.len()
    }

    /// The entries named `name`, in insertion order.
    pub fn lookup_by_name(&self, name: &str) -> (r: Vec<&SymbolEntry>)
        ensures
            r@.map_values(|e: &SymbolEntry| *e) == entries_named(self@, name@),
    {
        let mut r: Vec<&SymbolEntry> = Vec::new();
        let mut i: usize = 0;
        while i < self.entries.len()
            invariant
                i <= self.entries@.len(),
                r@.map_values(|e: &SymbolEntry| *e) == entries_named(
                    self.entries@.take(i as int),
                    name@,
                ),
            decreases self.entries@.len() - i,
        {
            let e = &self.entries[i];
            assert(self.entries@.take(i + 1).drop_last() =~= self.entries@.take(i as int));
            assert(self.entries@.take(i + 1).last() == *e);
            if equals(e.name.as_str(), name) {
                let ghost prev = r@;
                r.push(e);
                assert(r@.map_values(|e: &SymbolEntry| *e) =~= prev.map_values(
                    |e: &SymbolEntry| *e,
                ).push(*e));
            }
            i = i + 1;
        }
        assert(self.entries@.take(self.entries@.len() as int) =~= self.entries@);
        r
    }
}

} // verus!
