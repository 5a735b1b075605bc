//! Symbol resolution from the in-memory index.
use crate::resolver::index::{entries_named, SymbolEntry, SymbolIndex};
use crate::resolver::selectors::{
    all_selectors_match, filter_by_selectors, filtered_symbols, law_selectors_conjoin,
    selector_matches, ParsedSelector, SelectorType,
};
use vstd::prelude::*;

verus! {

/// Outcome of resolving a symbol name.
#[derive(Debug)]
pub enum ResolveResult {
    Found(SymbolEntry),
    Ambiguous(Vec<SymbolEntry>),
    NotFound,
}

/// The entries that satisfy every selector, in their order.
pub open spec fn entries_matching(entries: Seq<SymbolEntry>, sels: Seq<ParsedSelector>) -> Seq<
    SymbolEntry,
>
    decreases entries.len(),
{
    if entries.len() == 0 {
        seq![]
    } else if all_selectors_match(entries.last().as_information(), sels) {
        entries_matching(entries.drop_last(), sels).push(entries.last())
    } else {
        entries_matching(entries.drop_last(), sels)
    }
}

/// The candidates for `name` in `index` that satisfy the selectors.
pub open spec fn resolution_candidates(
    index: Seq<SymbolEntry>,
    name: Seq<char>,
    sels: Seq<ParsedSelector>,
) -> Seq<SymbolEntry> {
    entries_matching(entries_named(index, name), sels)
}

/// A resolution outcome for the candidates `c`: nothing, the one candidate, or all of them in
/// their order.
pub open spec fn outcome_of(result: ResolveResult, c: Seq<SymbolEntry>) -> bool {
    match result {
        ResolveResult::NotFound => c.len() == 0,
        ResolveResult::Found(e) => c.len() == 1 && e == c[0],
        ResolveResult::Ambiguous(es) => c.len() > 1 && es@ == c,
    }
}

/// What resolving `name` against `index` gives: nothing, the one candidate, or all of them.
pub open spec fn resolves_to(
    result: ResolveResult,
    index: Seq<SymbolEntry>,
    name: Seq<char>,
    sels: Seq<ParsedSelector>,
) -> bool {
    outcome_of(result, resolution_candidates(index, name, sels))
}

/// The outcome for candidates collected in `found`.
pub fn outcome_from(found: Vec<SymbolEntry>) -> (r: ResolveResult)
    ensures
        outcome_of(r, found@),
{
    let mut found = found;
    if found.len() == 0 {
        ResolveResult::NotFound
    } else if found.len() == 1 {
        ResolveResult::Found(found.remove(0))
    } else {
        ResolveResult::Ambiguous(found)
    }
}

/// Resolves symbol names against an index.
pub struct SymbolResolver<'a> {
    index: &'a SymbolIndex,
}

impl<'a> SymbolResolver<'a> {
    /// A resolver over `index`.
    pub fn new(index: &'a SymbolIndex) -> (r: Self)
        ensures
            r.index_view() == index@,
    {
        Self { index }
    }

    /// The entries of the index the resolver reads.
    pub closed spec fn index_view(&self) -> Seq<SymbolEntry> {
        self.index@
    }

    /// Resolves `name` from the in-memory index, keeping the entries that satisfy every
    /// selector: none gives `NotFound`, one gives `Found`, more give `Ambiguous`.
    pub fn resolve_from_index(&self, name: &str, selectors: &[ParsedSelector]) -> (r:
        ResolveResult)
        ensures
            resolves_to(r, self.index_view(), name@, selectors@),
    {
        let entries = self.index.lookup_by_name(name);
        let ghost named = entries@.map_values(|e: &SymbolEntry| *e);
        let mut filtered: Vec<SymbolEntry> = Vec::new();
        let mut i: usize = 0;
        while i < entries.len()
            invariant
                i <= entries@.len(),
                named == entries@.map_values(|e: &SymbolEntry| *e),
                filtered@ == entries_matching(named.take(i as int), selectors@),
            decreases entries@.len() - i,
        {
            let entry = entries[i];
            assert(named.take(i + 1).drop_last() =~= named.take(i as int));
            assert(named.take(i + 1).last() == *entry);
            let keep = if selectors.len() == 0 {
                true
            } else {
                let info = vec![entry.to_information()];
                let kept = filter_by_selectors(info.as_slice(), selectors);
                proof {
                    let s = info@;
                    assert(s.drop_last() =~= Seq::<crate::lsp::types::SymbolInformation>::empty());
                    assert(filtered_symbols(s.drop_last(), selectors@) =~= Seq::empty());
                    assert(s.last() == entry.as_information());
                    assert(kept@.map_values(|x: &crate::lsp::types::SymbolInformation| *x).len()
                        == kept@.len());
                }
                kept.len() == 1
            };
            assert(keep == all_selectors_match(entry.as_information(), selectors@));
            if keep {
                filtered.push(entry.duplicate());
            }
            i = i + 1;
        }
        assert(named.take(entries@.len() as int) =~= named);
        outcome_from(filtered)
    }
}

// ---------------------------------------------------------------------------
// Laws
// ---------------------------------------------------------------------------

/// The candidates are exactly the entries named `name` that satisfy every selector, in the
/// order they were inserted.
pub proof fn law_candidates_are_matching_entries(
    index: Seq<SymbolEntry>,
    name: Seq<char>,
    sels: Seq<ParsedSelector>,
)
    ensures
        resolution_candidates(index, name, sels) == index.filter(
            |e: SymbolEntry| e.name@ == name && all_selectors_match(e.as_information(), sels),
        ),
    decreases index.len(),
{
    reveal(Seq::filter);
    if index.len() > 0 {
        law_candidates_are_matching_entries(index.drop_last(), name, sels);
        if index.last().name@ == name {
            assert(entries_named(index, name).drop_last() == entries_named(index.drop_last(), name));
        }
    }
}

/// More selectors never add candidates: resolving with `a` followed by `b` keeps those
/// candidates for `a` that satisfy `b`.
pub proof fn law_more_selectors_narrow(
    index: Seq<SymbolEntry>,
    name: Seq<char>,
    a: Seq<ParsedSelector>,
    b: Seq<ParsedSelector>,
)
    ensures
        resolution_candidates(index, name, a + b) == entries_matching(
            resolution_candidates(index, name, a),
            b,
        ),
{
    lemma_matching_composes(entries_named(index, name), a, b);
}

proof fn lemma_matching_composes(es: Seq<SymbolEntry>, a: Seq<ParsedSelector>, b: Seq<ParsedSelector>)
    ensures
        entries_matching(es, a + b) == entries_matching(entries_matching(es, a), b),
    decreases es.len(),
{
    if es.len() > 0 {
        lemma_matching_composes(es.drop_last(), a, b);
        law_selectors_conjoin(es.last().as_information(), a, b);
        if all_selectors_match(es.last().as_information(), a) {
            assert(entries_matching(es, a).drop_last() == entries_matching(es.drop_last(), a));
        }
    }
}

/// An entry inserted under a name no other entry has is what resolving that name without
/// selectors finds.
pub proof fn law_insert_then_resolve(index: Seq<SymbolEntry>, entry: SymbolEntry)
    requires
        entries_named(index, entry.name@).len() == 0,
    ensures
        resolution_candidates(index.push(entry), entry.name@, seq![]) == seq![entry],
{
    assert(index.push(entry).drop_last() =~= index);
    assert(all_selectors_match(entry.as_information(), seq![]));
    assert(entries_named(index.push(entry), entry.name@) =~= seq![entry]);
    assert(seq![entry].drop_last() =~= Seq::<SymbolEntry>::empty());
    assert(entries_matching(seq![entry], seq![]) == seq![entry]) by {
        reveal_with_fuel(entries_matching, 2);
        assert(Seq::<SymbolEntry>::empty().push(entry) =~= seq![entry]);
    }
}

/// Resolving a name with `@struct:C` keeps every entry of that name whose own container is
/// `C`: the index hands each entry to the selectors with its container name.
pub proof fn law_struct_selector_finds_member(
    index: Seq<SymbolEntry>,
    name: Seq<char>,
    sel: ParsedSelector,
    k: int,
)
    requires
        sel.selector_type == SelectorType::Struct,
        0 <= k < index.len(),
        index[k].name@ == name,
        index[k].container_name is Some,
        index[k].container_name.unwrap()@ == sel.value@,
    ensures
        resolution_candidates(index, name, seq![sel]).contains(index[k]),
{
    law_candidates_are_matching_entries(index, name, seq![sel]);
    let info = index[k].as_information();
    assert(info.container_name == index[k].container_name);
    assert(selector_matches(info, sel));
    assert forall|i: int| 0 <= i < seq![sel].len() implies selector_matches(info, #[trigger] seq![sel][i]) by {
        assert(seq![sel][i] == sel);
    }
    let pred = |e: SymbolEntry| e.name@ == name && all_selectors_match(e.as_information(), seq![sel]);
    assert(pred(index[k]));
    index.lemma_filter_contains(pred, k);
}

} // verus!
