//! The code-action requests the mutation verbs send, and the steps around them.
use crate::domain::mutation::{ExtractPlan, ImportPlan};
use crate::lsp::types::{Position, Range};
use crate::resolver::index::SymbolEntry;
use vstd::prelude::*;

verus! {

/// A code-action request: the document, the range, and the action kinds asked for (every kind
/// when there is no list).
#[derive(Debug)]
pub struct CodeActionRequest {
    pub uri: String,
    pub range: Range,
    pub only: Option<Vec<&'static str>>,
}

/// What a mutation asks of the language server, in order.
#[derive(Debug)]
pub enum ServerStep {
    /// Send the file's current text to the server.
    SyncFile(String),
    /// Ask for the code actions of a range.
    AskCodeActions(CodeActionRequest),
}

/// The kinds a request asks for, as texts.
pub open spec fn kinds_of(only: Option<Vec<&'static str>>) -> Option<Seq<Seq<char>>> {
    match only {
        Some(k) => Some(k@.map_values(|s: &str| s@)),
        None => None,
    }
}

/// The range from column 0 of `first` to column 999 of `last`: whole lines as the requests
/// ask for them.
pub open spec fn line_span(first: u32, last: u32) -> Range {
    Range {
        start: Position { line: first, character: 0 },
        end: Position { line: last, character: 999 },
    }
}

/// `r` asks for the actions of `uri` over `range` of the kinds `kinds`.
pub open spec fn asks(r: CodeActionRequest, uri: Seq<char>, range: Range, kinds: Option<Seq<Seq<char>>>) -> bool {
    r.uri@ == uri && r.range == range && kinds_of(r.only) == kinds
}

fn whole_lines(first: u32, last: u32) -> (r: Range)
    ensures
        r == line_span(first, last),
{
    Range {
        start: Position { line: first, character: 0 },
        end: Position { line: last, character: 999 },
    }
}

/// What `extract` asks for: the extract refactorings of its lines, whole.
pub fn extract_request(plan: &ExtractPlan) -> (r: CodeActionRequest)
    ensures
        asks(
            r,
            plan.uri@,
            line_span(plan.start_line, plan.end_line),
            Some(seq!["refactor.extract.function"@, "refactor.extract"@]),
        ),
{
    let mut only: Vec<&'static str> = Vec::new();
    only.push("refactor.extract.function");
    only.push("refactor.extract");
    assert(only@.map_values(|s: &str| s@) =~= seq!["refactor.extract.function"@, "refactor.extract"@]);
    CodeActionRequest { uri: plan.uri.clone(), range: whole_lines(plan.start_line, plan.end_line), only: Some(only) }
}

/// What `import` asks for: the fixes and source actions of its line, whole.
pub fn import_request(plan: &ImportPlan) -> (r: CodeActionRequest)
    ensures
        asks(
            r,
            plan.uri@,
            line_span(plan.lsp_line, plan.lsp_line),
            Some(seq!["quickfix"@, "source"@, "source.organizeImports"@]),
        ),
{
    let mut only: Vec<&'static str> = Vec::new();
    only.push("quickfix");
    only.push("source");
    only.push("source.organizeImports");
    assert(only@.map_values(|s: &str| s@) =~= seq!["quickfix"@, "source"@, "source.organizeImports"@]);
    CodeActionRequest { uri: plan.uri.clone(), range: whole_lines(plan.lsp_line, plan.lsp_line), only: Some(only) }
}

/// What `inline` asks for: the inline refactorings of the symbol's name.
pub fn inline_request(entry: &SymbolEntry) -> (r: CodeActionRequest)
    ensures
        asks(r, entry.uri@, entry.selection_range, Some(seq!["refactor.inline"@])),
{
    let mut only: Vec<&'static str> = Vec::new();
    only.push("refactor.inline");
    assert(only@.map_values(|s: &str| s@) =~= seq!["refactor.inline"@]);
    CodeActionRequest { uri: entry.uri.clone(), range: entry.selection_range, only: Some(only) }
}

/// What `generate` asks for when no derive does: every action on the struct's name.
pub fn generate_request(entry: &SymbolEntry) -> (r: CodeActionRequest)
    ensures
        asks(r, entry.uri@, entry.selection_range, None),
{
    CodeActionRequest { uri: entry.uri.clone(), range: entry.selection_range, only: None }
}

/// The steps of a code-action mutation: the file is synced first, then the actions are asked
/// for.
pub fn code_action_steps(request: CodeActionRequest) -> (r: Vec<ServerStep>)
    ensures
        r@.len() == 2,
        r@[0] matches ServerStep::SyncFile(u) && u@ == request.uri@,
        r@[1] == ServerStep::AskCodeActions(request),
{
    let mut steps: Vec<ServerStep> = Vec::new();
    steps.push(ServerStep::SyncFile(request.uri.clone()));
    steps.push(ServerStep::AskCodeActions(request));
    steps
}

} // verus!
