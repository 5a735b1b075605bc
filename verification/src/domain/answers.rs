//! Answers of the query verbs built from the index and from what the language server sent.
use crate::domain::format::{
    error_text, format_error, format_hover, format_navigation_result, hover_text, navigation_text,
};
use crate::domain::model::RustModel;
use crate::lsp::types::{
    kind_lower_name, DocumentSymbol, Hover, HoverContents, Location, SymbolInformation, SymbolKind,
};
use crate::resolver::index::{entries_named, SymbolEntry};
use crate::resolver::selectors::{kind_from_text, symbol_kind_from_string};
use crate::text::{join_lines, join_newline, push_str, texts};
use vstd::prelude::*;

verus! {

/// The entries of kind `k`, in their order.
pub open spec fn entries_of_kind(es: Seq<SymbolEntry>, k: SymbolKind) -> Seq<SymbolEntry>
    decreases es.len(),
{
    if es.len() == 0 {
        seq![]
    } else if es.last().kind == k {
        entries_of_kind(es.drop_last(), k).push(es.last())
    } else {
        entries_of_kind(es.drop_last(), k)
    }
}

/// Where the entries stand.
pub open spec fn entry_locations(es: Seq<SymbolEntry>) -> Seq<Location> {
    es.map_values(|e: SymbolEntry| Location { uri: e.uri, range: e.range })
}

/// The description of the matches of a search.
pub open spec fn matches_description(query: Seq<char>) -> Seq<char> {
    "matches for '"@ + query + "'"@
}

/// What `find` answers from the index: an error without a query or for an unknown kind, the
/// locations of the entries named by the query (of the kind, when one is given), or none when
/// no entry matches.
pub open spec fn find_answer_of(
    index: Seq<SymbolEntry>,
    positionals: Seq<Seq<char>>,
    kind: Option<Seq<char>>,
) -> Option<Seq<char>> {
    if positionals.len() == 0 {
        Some(error_text("find requires a search query."@, None))
    } else {
        let query = positionals[0];
        let named = entries_named(index, query);
        let picked = match kind {
            Some(k) => match kind_from_text(k) {
                Some(kk) => Ok(entries_of_kind(named, kk)),
                None => Err(error_text("unknown kind '"@ + k + "'."@, None)),
            },
            None => Ok(named),
        };
        match picked {
            Err(e) => Some(e),
            Ok(es) => if es.len() == 0 {
                None
            } else {
                Some(navigation_text(entry_locations(es), matches_description(query)))
            },
        }
    }
}

/// The answer of `find` from the index, or none when no entry matched the query.
pub fn find_in_index(model: &RustModel, positionals: &[String], kind: Option<&str>) -> (r: Option<
    String,
>)
    ensures
        match r {
            Some(t) => find_answer_of(
                model.symbol_index@,
                texts(positionals@),
                match kind {
                    Some(k) => Some(k@),
                    None => None,
                },
            ) == Some(t@),
            None => find_answer_of(
                model.symbol_index@,
                texts(positionals@),
                match kind {
                    Some(k) => Some(k@),
                    None => None,
                },
            ) is None,
        },
{
    if positionals.len() == 0 {
        return Some(format_error("find requires a search query.", None));
    }
    let query = positionals[0].as_str();
    assert(texts(positionals@)[0] == query@);
    let entries = model.symbol_index.lookup_by_name(query);
    let ghost named = entries@.map_values(|e: &SymbolEntry| *e);
    let wanted = match kind {
        Some(k) => match symbol_kind_from_string(k) {
            Some(kk) => Some(kk),
            None => {
                let mut m = String::new();
                push_str(&mut m, "unknown kind '");
                push_str(&mut m, k);
                push_str(&mut m, "'.");
                return Some(format_error(m.as_str(), None));
            },
        },
        None => None,
    };
    let mut locations: Vec<Location> = Vec::new();
    let ghost mut picked: Seq<SymbolEntry> = seq![];
    let mut i: usize = 0;
    while i < entries.len()
        invariant
            i <= entries@.len(),
            named == entries@.map_values(|e: &SymbolEntry| *e),
            picked == match wanted {
                Some(kk) => entries_of_kind(named.take(i as int), kk),
                None => named.take(i as int),
            },
            locations@ == entry_locations(picked),
        decreases entries@.len() - i,
    {
        let e = entries[i];
        assert(named.take(i + 1).drop_last() =~= named.take(i as int));
        assert(named.take(i + 1).last() == *e);
        let keep = match wanted {
            Some(kk) => e.kind == kk,
            None => true,
        };
        if keep {
            locations.push(Location { uri: e.uri.clone(), range: e.range });
            proof {
                let prev = picked;
                picked = picked.push(*e);
                assert(entry_locations(picked) =~= entry_locations(prev).push(
                    Location { uri: e.uri, range: e.range },
                ));
            }
        }
        i = i + 1;
    }
    assert(named.take(entries@.len() as int) =~= named);
    if locations.len() == 0 {
        return None;
    }
    let mut description = String::new();
    push_str(&mut description, "matches for '");
    push_str(&mut description, query);
    push_str(&mut description, "'");
    Some(format_navigation_result(locations.as_slice(), description.as_str()))
}

/// What `find` answers from the workspace symbols the language server found for `query`.
pub fn workspace_matches(query: &str, symbols: &[SymbolInformation]) -> (r: String)
    ensures
        r@ == navigation_text(
            symbols@.map_values(|s: SymbolInformation| s.location),
            matches_description(query@),
        ),
{
    let mut locations: Vec<Location> = Vec::new();
    let mut i: usize = 0;
    while i < symbols.len()
        invariant
            i <= symbols@.len(),
            locations@ =~= symbols@.take(i as int).map_values(|s: SymbolInformation| s.location),
        decreases symbols@.len() - i,
    {
        locations.push(Location { uri: symbols[i].location.uri.clone(), range: symbols[i].location.range });
        assert(symbols@.take(i + 1) =~= symbols@.take(i as int).push(symbols@[i as int]));
        i = i + 1;
    }
    assert(symbols@.take(symbols@.len() as int) =~= symbols@);
    let mut description = String::new();
    push_str(&mut description, "matches for '");
    push_str(&mut description, query);
    push_str(&mut description, "'");
    format_navigation_result(locations.as_slice(), description.as_str())
}

/// What `find` answers when nothing matched `query`.
pub fn no_symbols_answer(query: &str) -> (r: String)
    ensures
        r@ == error_text("no symbols matching '"@ + query@ + "'."@, None),
{
    let mut m = String::new();
    push_str(&mut m, "no symbols matching '");
    push_str(&mut m, query);
    push_str(&mut m, "'.");
    format_error(m.as_str(), None)
}

/// A flat workspace symbol as an outline node: its location's range serves as both ranges,
/// and it has no children.
pub open spec fn outline_node(s: SymbolInformation) -> DocumentSymbol {
    DocumentSymbol {
        name: s.name,
        kind: s.kind,
        range: s.location.range,
        selection_range: s.location.range,
        children: None,
    }
}

/// Flat symbols of a file as outline nodes, in their order.
pub fn outline_of_information(symbols: &[SymbolInformation]) -> (r: Vec<DocumentSymbol>)
    ensures
        r@ == symbols@.map_values(|s: SymbolInformation| outline_node(s)),
{
    let mut r: Vec<DocumentSymbol> = Vec::new();
    let mut i: usize = 0;
    while i < symbols.len()
        invariant
            i <= symbols@.len(),
            r@ =~= symbols@.take(i as int).map_values(|s: SymbolInformation| outline_node(s)),
        decreases symbols@.len() - i,
    {
        let s = &symbols[i];
        r.push(
            DocumentSymbol {
                name: s.name.clone(),
                kind: s.kind,
                range: s.location.range,
                selection_range: s.location.range,
                children: None,
            },
        );
        assert(symbols@.take(i + 1) =~= symbols@.take(i as int).push(symbols@[i as int]));
        i = i + 1;
    }
    assert(symbols@.take(symbols@.len() as int) =~= symbols@);
    r
}

/// The text of a hover answer: the marked string, the markup's value, or the marked strings
/// one per line.
pub open spec fn hover_contents_text(h: Hover) -> Seq<char> {
    match h.contents {
        HoverContents::MarkedString(s) => s@,
        HoverContents::MarkupContent(m) => m.value@,
        HoverContents::MarkedStringArray(a) => join_lines(texts(a@)),
    }
}

/// The text of a hover answer.
pub fn hover_contents(h: &Hover) -> (r: String)
    ensures
        r@ == hover_contents_text(*h),
{
    match &h.contents {
        HoverContents::MarkedString(s) => s.clone(),
        HoverContents::MarkupContent(m) => m.value.clone(),
        HoverContents::MarkedStringArray(a) => join_newline(a),
    }
}

/// What `inspect` answers for a resolved entry, given the hover text (empty without one).
pub fn inspect_answer(name: &str, entry: &SymbolEntry, contents: &str) -> (r: String)
    ensures
        r@ == hover_text(name@, kind_lower_name(entry.kind), entry.uri@, entry.range, contents@),
{
    format_hover(name, entry.kind.lower_name(), entry.uri.as_str(), &entry.range, contents)
}

/// What `refs` answers with the references the language server found.
pub fn references_answer(name: &str, locations: &[Location]) -> (r: String)
    ensures
        r@ == navigation_text(locations@, "references to '"@ + name@ + "'"@),
{
    let mut description = String::new();
    push_str(&mut description, "references to '");
    push_str(&mut description, name);
    push_str(&mut description, "'");
    format_navigation_result(locations, description.as_str())
}

/// The error answered when a step fails: what failed, then why.
pub fn failure_answer(what: &str, detail: &str) -> (r: String)
    ensures
        r@ == error_text(what@ + ": "@ + detail@, None),
{
    let mut m = String::new();
    push_str(&mut m, what);
    push_str(&mut m, ": ");
    push_str(&mut m, detail);
    format_error(m.as_str(), None)
}

/// How a rename is described: the old name, an arrow, the new name.
pub fn rename_description(old_name: &str, new_name: &str) -> (r: String)
    ensures
        r@ == old_name@ + " → "@ + new_name@,
{
    let mut d = String::new();
    push_str(&mut d, old_name);
    push_str(&mut d, " → ");
    push_str(&mut d, new_name);
    d
}

/// How generating a trait implementation is described: the trait, then the struct.
pub fn generation_description(trait_name: &str, struct_name: &str) -> (r: String)
    ensures
        r@ == trait_name@ + " for "@ + struct_name@,
{
    let mut d = String::new();
    push_str(&mut d, trait_name);
    push_str(&mut d, " for ");
    push_str(&mut d, struct_name);
    d
}

} // verus!
