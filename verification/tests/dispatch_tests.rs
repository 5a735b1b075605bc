use fcp_rust::domain::answers::{
    failure_answer, generation_description, references_answer, rename_description,
};
use fcp_rust::domain::dispatch::{query_argument_error, route_mutation, route_query, MutationVerb, QueryVerb};
use fcp_rust::domain::verbs::{register_mutation_verbs, register_query_verbs, register_session_verbs};
use fcp_rust::fcpcore::verb_registry::VerbRegistry;
use fcp_rust::lsp::types::{
    DiagnosticSeverity, SymbolKind, DocumentChange, Location, OptionalVersionedTextDocumentIdentifier, Position, Range,
    ResourceOperation, TextDocumentEdit, TextEdit, WorkspaceEdit,
};
use fcp_rust::lsp::workspace_edit::{file_actions, record_action, ApplyResult, FileAction};
use std::collections::HashMap;

fn make_registry() -> VerbRegistry {
    let mut reg = VerbRegistry::new();
    register_query_verbs(&mut reg);
    register_mutation_verbs(&mut reg);
    register_session_verbs(&mut reg);
    reg
}

fn edit(line: u32, text: &str) -> TextEdit {
    TextEdit {
        range: Range {
            start: Position { line, character: 0 },
            end: Position { line, character: 3 },
        },
        new_text: text.to_string(),
    }
}

#[test]
fn test_route_query() {
    let reg = make_registry();
    assert_eq!(route_query(&reg, "find", None).ok().unwrap(), QueryVerb::Find);
    assert_eq!(route_query(&reg, "map", None).ok().unwrap(), QueryVerb::WorkspaceMap);
    assert_eq!(
        route_query(&reg, "fnd", Some("find")).err().unwrap(),
        "! unknown verb 'fnd'. Did you mean 'find'?"
    );
    assert_eq!(route_query(&reg, "zzzzzzz", None).err().unwrap(), "! unknown verb 'zzzzzzz'.");
    assert_eq!(route_query(&reg, "rename", None).err().unwrap(), "! unhandled verb 'rename'.");
}

#[test]
fn test_route_mutation() {
    let reg = make_registry();
    assert_eq!(
        route_mutation(&reg, "rename", None, false).err().unwrap(),
        "! no workspace open. Use rust_session open PATH first."
    );
    assert_eq!(route_mutation(&reg, "extract", None, true).ok().unwrap(), MutationVerb::Extract);
    assert_eq!(route_mutation(&reg, "import", None, true).ok().unwrap(), MutationVerb::Import);
    assert_eq!(
        route_mutation(&reg, "refactor", None, true).err().unwrap(),
        "! unknown verb 'refactor'."
    );
    assert_eq!(
        route_mutation(&reg, "find", None, true).err().unwrap(),
        "! verb 'find' is not a mutation."
    );
}

#[test]
fn test_answer_pieces() {
    assert_eq!(rename_description("Config", "Settings"), "Config → Settings");
    assert_eq!(generation_description("Display", "Config"), "Display for Config");
    assert_eq!(failure_answer("LSP error", "timed out"), "! LSP error: timed out");
    assert_eq!(references_answer("run", &[]), "No references to 'run' found.");
    let loc = Location {
        uri: "file:///p/a.rs".to_string(),
        range: Range { start: Position { line: 1, character: 4 }, end: Position { line: 1, character: 7 } },
    };
    assert!(references_answer("run", &[loc]).starts_with("references to 'run' (1):"));
}

#[test]
fn test_file_actions_rich_form() {
    let we = WorkspaceEdit {
        changes: None,
        document_changes: Some(vec![
            DocumentChange::Edit(TextDocumentEdit {
                text_document: OptionalVersionedTextDocumentIdentifier {
                    uri: "file:///p/a.rs".to_string(),
                    version: Some(1),
                },
                edits: vec![edit(0, "x"), edit(1, "y")],
            }),
            DocumentChange::Operation(ResourceOperation::Create { uri: "file:///p/b.rs".to_string() }),
            DocumentChange::Operation(ResourceOperation::Rename {
                old_uri: "file:///p/c.rs".to_string(),
                new_uri: "file:///p/d.rs".to_string(),
            }),
            DocumentChange::Operation(ResourceOperation::Delete { uri: "file:///p/e.rs".to_string() }),
        ]),
    };
    let actions = file_actions(&we);
    assert_eq!(actions.len(), 4);
    let mut result = ApplyResult::default();
    for a in &actions {
        record_action(&mut result, a);
    }
    assert_eq!(result.files_changed, vec![("file:///p/a.rs".to_string(), 2)]);
    assert_eq!(result.files_created, vec!["file:///p/b.rs".to_string()]);
    assert_eq!(
        result.files_renamed,
        vec![("file:///p/c.rs".to_string(), "file:///p/d.rs".to_string())]
    );
    assert!(matches!(actions[3], FileAction::Delete { .. }));
}

#[test]
fn test_file_actions_simple_form() {
    let mut changes = HashMap::new();
    changes.insert("file:///p/a.rs".to_string(), vec![edit(0, "x")]);
    changes.insert("file:///p/b.rs".to_string(), vec![edit(0, "y"), edit(2, "z")]);
    let we = WorkspaceEdit { changes: Some(changes), document_changes: None };
    let actions = file_actions(&we);
    assert_eq!(actions.len(), 2);
    let mut result = ApplyResult::default();
    for a in &actions {
        record_action(&mut result, a);
    }
    let mut changed = result.files_changed.clone();
    changed.sort();
    assert_eq!(
        changed,
        vec![("file:///p/a.rs".to_string(), 1), ("file:///p/b.rs".to_string(), 2)]
    );
    let none = WorkspaceEdit { changes: None, document_changes: None };
    assert!(file_actions(&none).is_empty());
}

fn make_model() -> fcp_rust::domain::model::RustModel {
    fcp_rust::domain::model::RustModel::new(url::Url::parse("file:///project").unwrap().as_str().to_string())
}

#[test]
fn test_dispatch_mutation_unknown_verb() {
    let reg = make_registry();
    let result = route_mutation(&reg, "refactor", None, false).err().unwrap();
    assert!(result.contains("unknown verb"));
}

#[test]
fn test_dispatch_mutation_no_workspace() {
    let reg = make_registry();
    let result = route_mutation(&reg, "rename", None, false).err().unwrap();
    assert!(result.contains("no workspace open"));
}

#[test]
fn test_dispatch_rename_missing_new_name() {
    // no workspace: refused before the arguments are checked
    let reg = make_registry();
    let result = route_mutation(&reg, "rename", None, false).err().unwrap();
    assert!(result.contains("no workspace open"));
}

#[test]
fn test_dispatch_extract_recognized() {
    let reg = make_registry();
    assert!(route_mutation(&reg, "extract", None, false).err().unwrap().contains("no workspace open"));
}

#[test]
fn test_dispatch_inline_recognized() {
    let reg = make_registry();
    assert!(route_mutation(&reg, "inline", None, false).err().unwrap().contains("no workspace open"));
}

#[test]
fn test_dispatch_generate_recognized() {
    let reg = make_registry();
    assert!(route_mutation(&reg, "generate", None, false).err().unwrap().contains("no workspace open"));
}

#[test]
fn test_dispatch_import_recognized() {
    let reg = make_registry();
    assert!(route_mutation(&reg, "import", None, false).err().unwrap().contains("no workspace open"));
}

#[test]
fn test_dispatch_query_known_verb() {
    let mut model = make_model();
    model.symbol_index.insert(fcp_rust::resolver::index::SymbolEntry {
        name: "Config".to_string(),
        kind: fcp_rust::lsp::types::SymbolKind::Struct,
        container_name: None,
        uri: "file:///src/config.rs".to_string(),
        range: Range { start: Position { line: 0, character: 0 }, end: Position { line: 5, character: 0 } },
        selection_range: Range { start: Position { line: 0, character: 0 }, end: Position { line: 0, character: 0 } },
    });
    let reg = make_registry();
    assert_eq!(route_query(&reg, "find", None).ok().unwrap(), QueryVerb::Find);
    let result = fcp_rust::domain::answers::find_in_index(&model, &["Config".to_string()], None).unwrap();
    assert!(result.contains("Config"));
}

#[test]
fn test_dispatch_query_unknown_verb_no_suggestion() {
    let reg = make_registry();
    let result = route_query(&reg, "zzzzzzz", None).err().unwrap();
    assert!(result.contains("unknown verb"));
}

#[test]
fn test_query_argument_errors() {
    assert_eq!(query_argument_error(QueryVerb::Symbols, &[]).unwrap(), "! symbols requires a file path.");
    assert_eq!(query_argument_error(QueryVerb::Callers, &[]).unwrap(), "! callers requires a symbol name.");
    assert_eq!(query_argument_error(QueryVerb::Find, &[]).unwrap(), "! find requires a search query.");
    assert!(query_argument_error(QueryVerb::Diagnose, &[]).is_none());
    assert!(query_argument_error(QueryVerb::Def, &["main".to_string()]).is_none());
}

#[test]
fn test_protocol_numbers() {
    assert_eq!(SymbolKind::File.number(), 1);
    assert_eq!(SymbolKind::Struct.number(), 23);
    assert_eq!(SymbolKind::TypeParameter.number(), 26);
    assert_eq!(SymbolKind::from_number(12), Some(SymbolKind::Function));
    assert_eq!(SymbolKind::from_number(0), None);
    assert_eq!(SymbolKind::from_number(27), None);
    assert_eq!(DiagnosticSeverity::from_number(2), Some(DiagnosticSeverity::Warning));
    assert_eq!(DiagnosticSeverity::Hint.number(), 4);
    assert_eq!(DiagnosticSeverity::from_number(5), None);
}
