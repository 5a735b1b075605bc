//! What resolving a symbol decides, apart from the questions put to the language server.
use crate::domain::format::{disambiguation_text, error_text, format_disambiguation, format_error};
use crate::domain::mutation::{lsp_line, to_lsp_line};
use crate::domain::query::{
    find_by_name_in_doc_symbols, find_in_doc_symbols, string_text, tree_search, uri_in_workspace,
    workspace_uri,
};
use crate::lsp::types::{DocumentSymbol, SymbolInformation, SymbolKind};
use crate::resolver::index::{copy_optional, SymbolEntry};
use crate::domain::model::RustModel;
use crate::resolver::pipeline::{outcome_from, outcome_of, resolution_candidates, ResolveResult, SymbolResolver};
use crate::resolver::selectors::{
    filter_by_selectors, filtered_symbols, ParsedSelector, SelectorType,
};
use crate::text::{equals, parse_u32, parse_u32_text, push_str};
use vstd::prelude::*;

verus! {

/// A workspace symbol as an index entry: its location's range serves as both ranges.
pub open spec fn entry_of_information(sym: SymbolInformation) -> SymbolEntry {
    SymbolEntry {
        name: sym.name,
        kind: sym.kind,
        container_name: sym.container_name,
        uri: sym.location.uri,
        range: sym.location.range,
        selection_range: sym.location.range,
    }
}

/// The index entry for a workspace symbol.
pub fn information_entry(sym: &SymbolInformation) -> (r: SymbolEntry)
    ensures
        r == entry_of_information(*sym),
{
    SymbolEntry {
        name: sym.name.clone(),
        kind: sym.kind,
        container_name: copy_optional(&sym.container_name),
        uri: sym.location.uri.clone(),
        range: sym.location.range,
        selection_range: sym.location.range,
    }
}

/// The candidates among the workspace symbols answered for a name: those that satisfy every
/// selector, as entries, in their order.
pub open spec fn workspace_candidates(syms: Seq<SymbolInformation>, sels: Seq<ParsedSelector>) -> Seq<
    SymbolEntry,
> {
    filtered_symbols(syms, sels).map_values(|s: SymbolInformation| entry_of_information(s))
}

/// Resolves a name among the workspace symbols the language server answered for it.
pub fn resolve_workspace_symbols(symbols: &[SymbolInformation], selectors: &[ParsedSelector]) -> (r:
    ResolveResult)
    ensures
        outcome_of(r, workspace_candidates(symbols@, selectors@)),
{
    let kept = filter_by_selectors(symbols, selectors);
    let ghost ks = kept@.map_values(|s: &SymbolInformation| *s);
    let mut found: Vec<SymbolEntry> = Vec::new();
    let mut i: usize = 0;
    while i < kept.len()
        invariant
            i <= kept@.len(),
            ks == kept@.map_values(|s: &SymbolInformation| *s),
            found@ =~= ks.take(i as int).map_values(|s: SymbolInformation| entry_of_information(s)),
        decreases kept@.len() - i,
    {
        let e = information_entry(kept[i]);
        found.push(e);
        assert(ks.take(i + 1) =~= ks.take(i as int).push(ks[i as int]));
        i = i + 1;
    }
    assert(ks.take(kept@.len() as int) =~= ks);
    outcome_from(found)
}

/// The value of the first selector of type `t`.
pub open spec fn first_of_type(sels: Seq<ParsedSelector>, t: SelectorType) -> Option<Seq<char>>
    decreases sels.len(),
{
    if sels.len() == 0 {
        None
    } else if sels[0].selector_type == t {
        Some(sels[0].value@)
    } else {
        first_of_type(sels.drop_first(), t)
    }
}

/// The value of the first selector of type `t`.
pub fn value_of_type(sels: &[ParsedSelector], t: SelectorType) -> (r: Option<String>)
    ensures
        string_text(r) == first_of_type(sels@, t),
{
    let mut i: usize = 0;
    assert(sels@.skip(0) =~= sels@);
    while i < sels.len()
        invariant
            i <= sels@.len(),
            first_of_type(sels@, t) == first_of_type(sels@.skip(i as int), t),
        decreases sels@.len() - i,
    {
        assert(sels@.skip(i as int)[0] == sels@[i as int]);
        assert(sels@.skip(i as int).drop_first() =~= sels@.skip(i + 1));
        if sels[i].selector_type == t {
            return Some(sels[i].value.clone());
        }
        i = i + 1;
    }
    None
}

/// Where a field is looked up when neither the index nor the workspace symbols know a name:
/// the file of the first `@file:` selector, as a URI, and the zero-based line of the first
/// `@line:` selector, when both are there and the line is a number.
pub open spec fn field_lookup_of(root_uri: Seq<char>, sels: Seq<ParsedSelector>) -> Option<
    (Seq<char>, u32),
> {
    match (first_of_type(sels, SelectorType::File), first_of_type(sels, SelectorType::Line)) {
        (Some(f), Some(l)) => match parse_u32_text(l) {
            Some(n) => Some((uri_in_workspace(root_uri, f), lsp_line(n))),
            None => None,
        },
        _ => None,
    }
}

/// The file and line to look a field up at.
pub fn field_lookup_target(root_uri: &str, selectors: &[ParsedSelector]) -> (r: Option<
    (String, u32),
>)
    ensures
        match r {
            Some((u, l)) => field_lookup_of(root_uri@, selectors@) == Some((u@, l)),
            None => field_lookup_of(root_uri@, selectors@) is None,
        },
{
    let file = value_of_type(selectors, SelectorType::File);
    let line = value_of_type(selectors, SelectorType::Line);
    match (file, line) {
        (Some(f), Some(l)) => match parse_u32(l.as_str()) {
            Some(n) => Some((workspace_uri(root_uri, f.as_str()), to_lsp_line(n))),
            None => None,
        },
        _ => None,
    }
}

/// `e` describes `sym`, found under `parent`, in the file `uri`.
pub open spec fn located_entry(
    e: SymbolEntry,
    sym: DocumentSymbol,
    parent: Option<Seq<char>>,
    uri: Seq<char>,
) -> bool {
    &&& e.name@ == sym.name@
    &&& e.kind == sym.kind
    &&& string_text(e.container_name) == parent
    &&& e.uri@ == uri
    &&& e.range == sym.range
    &&& e.selection_range == sym.selection_range
}

/// The result of a tree search in the file `uri` as an entry.
pub open spec fn located_result(
    r: Option<SymbolEntry>,
    found: Option<(DocumentSymbol, Option<Seq<char>>)>,
    uri: Seq<char>,
) -> bool {
    match (r, found) {
        (Some(e), Some((sym, parent))) => located_entry(e, sym, parent, uri),
        (None, None) => true,
        _ => false,
    }
}

fn locate(found: Option<SymbolEntry>, uri: &str) -> (r: Option<SymbolEntry>)
    ensures
        match (found, r) {
            (Some(f), Some(e)) => e == (SymbolEntry { uri: e.uri, ..f }) && e.uri@ == uri@,
            (None, None) => true,
            _ => false,
        },
{
    match found {
        Some(mut e) => {
            e.uri = uri.to_owned();
            Some(e)
        },
        None => None,
    }
}

/// The symbol named `name` whose range covers `line` in the symbol tree of the file `uri`.
pub fn entry_at_line(symbols: &[DocumentSymbol], name: &str, line: u32, uri: &str) -> (r: Option<
    SymbolEntry,
>)
    ensures
        located_result(r, tree_search(symbols@, name@, Some(line), None), uri@),
{
    let found = find_in_doc_symbols(symbols, name, line, None);
    locate(found, uri)
}

/// The index of the first workspace symbol that is a struct named `name`.
pub open spec fn first_struct_index(syms: Seq<SymbolInformation>, name: Seq<char>) -> Option<int>
    decreases syms.len(),
{
    if syms.len() == 0 {
        None
    } else if syms[0].name@ == name && syms[0].kind == SymbolKind::Struct {
        Some(0)
    } else {
        match first_struct_index(syms.drop_first(), name) {
            Some(i) => Some(i + 1),
            None => None,
        }
    }
}

/// The file of the first workspace symbol that is a struct named `struct_name`.
pub fn struct_file(symbols: &[SymbolInformation], struct_name: &str) -> (r: Option<String>)
    ensures
        match first_struct_index(symbols@, struct_name@) {
            Some(i) => r == Some(symbols@[i].location.uri),
            None => r is None,
        },
{
    let mut i: usize = 0;
    assert(symbols@.skip(0) =~= symbols@);
    while i < symbols.len()
        invariant
            i <= symbols@.len(),
            first_struct_index(symbols@, struct_name@) == match first_struct_index(
                symbols@.skip(i as int),
                struct_name@,
            ) {
                Some(j) => Some(j + i),
                None => None::<int>,
            },
        decreases symbols@.len() - i,
    {
        assert(symbols@.skip(i as int)[0] == symbols@[i as int]);
        assert(symbols@.skip(i as int).drop_first() =~= symbols@.skip(i + 1));
        if equals(symbols[i].name.as_str(), struct_name) && symbols[i].kind == SymbolKind::Struct {
            return Some(symbols[i].location.uri.clone());
        }
        i = i + 1;
    }
    assert(symbols@.skip(i as int) =~= Seq::<SymbolInformation>::empty());
    None
}

/// The first top-level symbol of a file that is a struct named `name`.
pub open spec fn first_struct_node(syms: Seq<DocumentSymbol>, name: Seq<char>) -> Option<DocumentSymbol>
    decreases syms.len(),
{
    if syms.len() == 0 {
        None
    } else if syms[0].name@ == name && syms[0].kind == SymbolKind::Struct {
        Some(syms[0])
    } else {
        first_struct_node(syms.drop_first(), name)
    }
}

/// The search for a field named `name` of the struct `struct_name`: among the children of the
/// first top-level struct of that name, parents before children.
pub open spec fn struct_field_search(
    syms: Seq<DocumentSymbol>,
    struct_name: Seq<char>,
    name: Seq<char>,
) -> Option<(DocumentSymbol, Option<Seq<char>>)> {
    match first_struct_node(syms, struct_name) {
        Some(s) => match s.children {
            Some(c) => tree_search(c@, name, None, Some(s.name@)),
            None => None,
        },
        None => None,
    }
}

/// The field `name` of the struct `struct_name` in the symbol tree of the file `uri`.
pub fn struct_field_entry(symbols: &[DocumentSymbol], struct_name: &str, name: &str, uri: &str) -> (r:
    Option<SymbolEntry>)
    ensures
        located_result(r, struct_field_search(symbols@, struct_name@, name@), uri@),
{
    let mut i: usize = 0;
    assert(symbols@.skip(0) =~= symbols@);
    while i < symbols.len()
        invariant
            i <= symbols@.len(),
            first_struct_node(symbols@, struct_name@) == first_struct_node(
                symbols@.skip(i as int),
                struct_name@,
            ),
        decreases symbols@.len() - i,
    {
        let sym = &symbols[i];
        assert(symbols@.skip(i as int)[0] == *sym);
        assert(symbols@.skip(i as int).drop_first() =~= symbols@.skip(i + 1));
        if equals(sym.name.as_str(), struct_name) && sym.kind == SymbolKind::Struct {
            return match &sym.children {
                Some(children) => {
                    let found = find_by_name_in_doc_symbols(
                        children.as_slice(),
                        name,
                        Some(sym.name.as_str()),
                    );
                    locate(found, uri)
                },
                None => None,
            };
        }
        i = i + 1;
    }
    None
}

/// What a resolution leaves to answer: the entry found, or the answer when there is none or
/// more than one; `what` names the thing looked for (`symbol`, `struct`).
pub open spec fn settled(result: ResolveResult, name: Seq<char>, what: Seq<char>) -> Result<
    SymbolEntry,
    Seq<char>,
> {
    match result {
        ResolveResult::Found(e) => Ok(e),
        ResolveResult::Ambiguous(es) => Err(disambiguation_text(name, es@)),
        ResolveResult::NotFound => Err(
            error_text(what + " '"@ + name + "' not found."@, None),
        ),
    }
}

/// The entry a resolution found, or the answer to give instead.
pub fn settle_resolution(result: ResolveResult, name: &str, what: &str) -> (r: Result<
    SymbolEntry,
    String,
>)
    ensures
        match r {
            Ok(e) => settled(result, name@, what@) == Ok::<SymbolEntry, Seq<char>>(e),
            Err(t) => settled(result, name@, what@) == Err::<SymbolEntry, Seq<char>>(t@),
        },
{
    match result {
        ResolveResult::Found(e) => Ok(e),
        ResolveResult::Ambiguous(es) => Err(format_disambiguation(name, es.as_slice())),
        ResolveResult::NotFound => {
            let mut m = String::new();
            push_str(&mut m, what);
            push_str(&mut m, " '");
            push_str(&mut m, name);
            push_str(&mut m, "' not found.");
            Err(format_error(m.as_str(), None))
        },
    }
}

// ---------------------------------------------------------------------------
// The resolution cascade, one answer of the language server at a time
// ---------------------------------------------------------------------------

/// Where a resolution stands while it waits for the language server.
#[derive(Debug)]
pub enum ResolutionStage {
    /// The workspace symbols for the name were asked for.
    AwaitWorkspaceSymbols,
    /// The symbol tree of the `@file:` selector's file was asked for, to find the name at `line`.
    AwaitFieldTree { uri: String, line: u32 },
    /// The workspace symbols for the `@struct:` selector's struct were asked for.
    AwaitStructSymbols { struct_name: String },
    /// The symbol tree of the struct's file was asked for.
    AwaitStructTree { struct_name: String, uri: String },
}

/// What the language server answered; a failed request counts as an empty answer.
#[derive(Debug)]
pub enum ServerAnswer {
    Symbols(Vec<SymbolInformation>),
    Tree(Vec<DocumentSymbol>),
    Failed,
}

/// What a resolution does next.
#[derive(Debug)]
pub enum ResolutionAction {
    /// The resolution is over, with this outcome.
    Finish(ResolveResult),
    /// Ask for the workspace symbols matching this query.
    AskWorkspaceSymbols(String),
    /// Ask for the symbol tree of this file.
    AskDocumentSymbols(String),
}

/// The symbols of an answer (none unless it is a symbol list).
pub open spec fn answer_symbols(a: ServerAnswer) -> Seq<SymbolInformation> {
    match a {
        ServerAnswer::Symbols(s) => s@,
        _ => seq![],
    }
}

/// The symbol tree of an answer (empty unless it is a tree).
pub open spec fn answer_tree(a: ServerAnswer) -> Seq<DocumentSymbol> {
    match a {
        ServerAnswer::Tree(t) => t@,
        _ => seq![],
    }
}

/// The last tier: with an `@struct:` selector, ask for that struct's symbols; without one, the
/// name is not found.
pub open spec fn goes_to_struct(r: (Option<ResolutionStage>, ResolutionAction), sels: Seq<ParsedSelector>) -> bool {
    match first_of_type(sels, SelectorType::Struct) {
        Some(sn) => (r.0 matches Some(ResolutionStage::AwaitStructSymbols { struct_name })
            && struct_name@ == sn) && (r.1 matches ResolutionAction::AskWorkspaceSymbols(q) && q@ == sn),
        None => r.0 is None && r.1 matches ResolutionAction::Finish(ResolveResult::NotFound),
    }
}

/// After the workspace symbols found nothing: with `@file:` and `@line:`, ask for that file's
/// tree; otherwise go on to the struct tier.
pub open spec fn goes_to_field(
    r: (Option<ResolutionStage>, ResolutionAction),
    root_uri: Seq<char>,
    sels: Seq<ParsedSelector>,
) -> bool {
    match field_lookup_of(root_uri, sels) {
        Some((u, l)) => (r.0 matches Some(ResolutionStage::AwaitFieldTree { uri, line }) && uri@
            == u && line == l) && (r.1 matches ResolutionAction::AskDocumentSymbols(d) && d@ == u),
        None => goes_to_struct(r, sels),
    }
}

/// The resolution ends here with the entry for a node found in the tree of `uri`.
pub open spec fn finishes_found(
    r: (Option<ResolutionStage>, ResolutionAction),
    found: (DocumentSymbol, Option<Seq<char>>),
    uri: Seq<char>,
) -> bool {
    r.0 is None && (r.1 matches ResolutionAction::Finish(ResolveResult::Found(e)) && located_entry(
        e,
        found.0,
        found.1,
        uri,
    ))
}

/// Begins resolving `name`: the index decides when it finds something or when no language
/// server runs; otherwise the workspace symbols for the name are asked for.
pub fn start_resolution(
    model: &RustModel,
    name: &str,
    selectors: &[ParsedSelector],
    server_running: bool,
) -> (r: (Option<ResolutionStage>, ResolutionAction))
    ensures
        ({
            let c = resolution_candidates(model.symbol_index@, name@, selectors@);
            if c.len() > 0 || !server_running {
                r.0 is None && (r.1 matches ResolutionAction::Finish(res) && outcome_of(res, c))
            } else {
                r.0 matches Some(ResolutionStage::AwaitWorkspaceSymbols) && (
                r.1 matches ResolutionAction::AskWorkspaceSymbols(q) && q@ == name@)
            }
        }),
{
    let resolver = SymbolResolver::new(&model.symbol_index);
    let result = resolver.resolve_from_index(name, selectors);
    let not_found = match result {
        ResolveResult::NotFound => true,
        _ => false,
    };
    if !not_found || !server_running {
        (None, ResolutionAction::Finish(result))
    } else {
        (Some(ResolutionStage::AwaitWorkspaceSymbols), ResolutionAction::AskWorkspaceSymbols(name.to_owned()))
    }
}

fn to_struct_tier(selectors: &[ParsedSelector]) -> (r: (Option<ResolutionStage>, ResolutionAction))
    ensures
        goes_to_struct(r, selectors@),
{
    match value_of_type(selectors, SelectorType::Struct) {
        Some(sn) => {
            let q = sn.clone();
            (Some(ResolutionStage::AwaitStructSymbols { struct_name: sn }), ResolutionAction::AskWorkspaceSymbols(q))
        },
        None => (None, ResolutionAction::Finish(ResolveResult::NotFound)),
    }
}

/// Goes on resolving `name` with the language server's answer to the last question: the
/// workspace symbols decide when any satisfies the selectors; then the symbol at `@line:` in
/// the `@file:`'s tree, then the field of the `@struct:` among the children of that struct in
/// its file's tree; when every tier found nothing, the name is not found.
pub fn continue_resolution(
    root_uri: &str,
    name: &str,
    selectors: &[ParsedSelector],
    stage: ResolutionStage,
    answer: ServerAnswer,
) -> (r: (Option<ResolutionStage>, ResolutionAction))
    ensures
        match stage {
            ResolutionStage::AwaitWorkspaceSymbols => {
                let c = workspace_candidates(answer_symbols(answer), selectors@);
                if c.len() > 0 {
                    r.0 is None && (r.1 matches ResolutionAction::Finish(res) && outcome_of(res, c))
                } else {
                    goes_to_field(r, root_uri@, selectors@)
                }
            },
            ResolutionStage::AwaitFieldTree { uri, line } => match tree_search(
                answer_tree(answer),
                name@,
                Some(line),
                None,
            ) {
                Some(found) => finishes_found(r, found, uri@),
                None => goes_to_struct(r, selectors@),
            },
            ResolutionStage::AwaitStructSymbols { struct_name } => match first_struct_index(
                answer_symbols(answer),
                struct_name@,
            ) {
                Some(i) => (r.0 matches Some(ResolutionStage::AwaitStructTree { struct_name: sn, uri })
                    && sn@ == struct_name@ && uri@ == answer_symbols(answer)[i].location.uri@) && (
                r.1 matches ResolutionAction::AskDocumentSymbols(d) && d@ == answer_symbols(
                    answer,
                )[i].location.uri@),
                None => r.0 is None && r.1 matches ResolutionAction::Finish(ResolveResult::NotFound),
            },
            ResolutionStage::AwaitStructTree { struct_name, uri } => match struct_field_search(
                answer_tree(answer),
                struct_name@,
                name@,
            ) {
                Some(found) => finishes_found(r, found, uri@),
                None => r.0 is None && r.1 matches ResolutionAction::Finish(ResolveResult::NotFound),
            },
        },
{
    let no_symbols: Vec<SymbolInformation> = Vec::new();
    let no_tree: Vec<DocumentSymbol> = Vec::new();
    let symbols: &Vec<SymbolInformation> = match &answer {
        ServerAnswer::Symbols(s) => s,
        _ => &no_symbols,
    };
    let tree: &Vec<DocumentSymbol> = match &answer {
        ServerAnswer::Tree(t) => t,
        _ => &no_tree,
    };
    assert(symbols@ == answer_symbols(answer));
    assert(tree@ == answer_tree(answer));
    match stage {
        ResolutionStage::AwaitWorkspaceSymbols => {
            let r = resolve_workspace_symbols(symbols.as_slice(), selectors);
            let not_found = match r {
                ResolveResult::NotFound => true,
                _ => false,
            };
            if !not_found {
                return (None, ResolutionAction::Finish(r));
            }
            match field_lookup_target(root_uri, selectors) {
                Some((u, l)) => {
                    let d = u.clone();
                    (Some(ResolutionStage::AwaitFieldTree { uri: u, line: l }), ResolutionAction::AskDocumentSymbols(d))
                },
                None => to_struct_tier(selectors),
            }
        },
        ResolutionStage::AwaitFieldTree { uri, line } => {
            match entry_at_line(tree.as_slice(), name, line, uri.as_str()) {
                Some(e) => (None, ResolutionAction::Finish(ResolveResult::Found(e))),
                None => to_struct_tier(selectors),
            }
        },
        ResolutionStage::AwaitStructSymbols { struct_name } => {
            match struct_file(symbols.as_slice(), struct_name.as_str()) {
                Some(u) => {
                    let d = u.clone();
                    (Some(ResolutionStage::AwaitStructTree { struct_name, uri: u }), ResolutionAction::AskDocumentSymbols(d))
                },
                None => (None, ResolutionAction::Finish(ResolveResult::NotFound)),
            }
        },
        ResolutionStage::AwaitStructTree { struct_name, uri } => {
            match struct_field_entry(tree.as_slice(), struct_name.as_str(), name, uri.as_str()) {
                Some(e) => (None, ResolutionAction::Finish(ResolveResult::Found(e))),
                None => (None, ResolutionAction::Finish(ResolveResult::NotFound)),
            }
        },
    }
}

} // verus!
