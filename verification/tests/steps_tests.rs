use fcp_rust::domain::documents::{DocumentSync, OpenDocuments};
use fcp_rust::domain::model::RustModel;
use fcp_rust::domain::mutation::{ExtractPlan, ImportPlan};
use fcp_rust::domain::query::{diagnose_is_safe, handle_diagnose, handle_unused, unused_is_safe};
use fcp_rust::domain::requests::{
    code_action_steps, extract_request, generate_request, import_request, inline_request,
    CodeActionRequest, ServerStep,
};
use fcp_rust::domain::resolution::{
    continue_resolution, start_resolution, ResolutionAction, ResolutionStage, ServerAnswer,
};
use fcp_rust::fcpcore::verb_registry::{VerbRegistry, VerbSpec};
use fcp_rust::lsp::types::{
    Diagnostic, DiagnosticSeverity, DocumentSymbol, Location, Position, Range, SymbolInformation,
    SymbolKind, TextEdit,
};
use fcp_rust::lsp::workspace_edit::apply_text_edits;
use fcp_rust::resolver::index::SymbolEntry;
use fcp_rust::resolver::pipeline::ResolveResult;
use fcp_rust::resolver::selectors::{parse_line_range, parse_selector, ParsedSelector};

fn span(sl: u32, sc: u32, el: u32, ec: u32) -> Range {
    Range {
        start: Position { line: sl, character: sc },
        end: Position { line: el, character: ec },
    }
}

fn entry(name: &str, uri: &str, line: u32) -> SymbolEntry {
    SymbolEntry {
        name: name.to_string(),
        kind: SymbolKind::Function,
        container_name: None,
        uri: uri.to_string(),
        range: span(line, 0, line + 3, 1),
        selection_range: span(line, 3, line, 3 + name.len() as u32),
    }
}

fn selectors(v: &[&str]) -> Vec<ParsedSelector> {
    v.iter().filter_map(|s| parse_selector(s)).collect()
}

fn model() -> RustModel {
    RustModel::new("file:///project".to_string())
}

fn diag(line: u32, message: &str) -> Diagnostic {
    Diagnostic {
        range: span(line, 0, line, 4),
        severity: Some(DiagnosticSeverity::Warning),
        code: None,
        source: Some("rustc".to_string()),
        message: message.to_string(),
    }
}

fn edit(sl: u32, sc: u32, el: u32, ec: u32, text: &str) -> TextEdit {
    TextEdit { range: span(sl, sc, el, ec), new_text: text.to_string() }
}

fn spec(name: &str, syntax: &str, category: &str) -> VerbSpec {
    VerbSpec { name: name.to_string(), syntax: syntax.to_string(), category: category.to_string() }
}

fn only_of(r: &CodeActionRequest) -> Option<Vec<&'static str>> {
    r.only.clone()
}

#[test]
fn test_extract_request_asks_whole_lines() {
    let plan = ExtractPlan {
        func_name: "helper".to_string(),
        uri: "file:///project/src/lib.rs".to_string(),
        start_line: 4,
        end_line: 9,
    };
    let r = extract_request(&plan);
    assert_eq!(r.uri, "file:///project/src/lib.rs");
    assert_eq!(r.range, span(4, 0, 9, 999));
    assert_eq!(only_of(&r), Some(vec!["refactor.extract.function", "refactor.extract"]));
}

#[test]
fn test_import_request_asks_one_line() {
    let plan = ImportPlan {
        symbol: "HashMap".to_string(),
        file_value: "src/main.rs".to_string(),
        uri: "file:///project/src/main.rs".to_string(),
        line: 3,
        lsp_line: 2,
    };
    let r = import_request(&plan);
    assert_eq!(r.uri, "file:///project/src/main.rs");
    assert_eq!(r.range, span(2, 0, 2, 999));
    assert_eq!(only_of(&r), Some(vec!["quickfix", "source", "source.organizeImports"]));
}

#[test]
fn test_inline_and_generate_requests_use_the_name() {
    let e = entry("helper", "file:///project/src/lib.rs", 7);
    let inline = inline_request(&e);
    assert_eq!(inline.range, e.selection_range);
    assert_eq!(only_of(&inline), Some(vec!["refactor.inline"]));
    let generate = generate_request(&e);
    assert_eq!(generate.uri, e.uri);
    assert_eq!(generate.range, e.selection_range);
    assert_eq!(only_of(&generate), None);
}

#[test]
fn test_code_action_steps_sync_first() {
    let e = entry("helper", "file:///project/src/lib.rs", 7);
    let steps = code_action_steps(inline_request(&e));
    assert_eq!(steps.len(), 2);
    match &steps[0] {
        ServerStep::SyncFile(u) => assert_eq!(u, "file:///project/src/lib.rs"),
        other => panic!("unexpected first step {:?}", other),
    }
    match &steps[1] {
        ServerStep::AskCodeActions(r) => assert_eq!(r.range, e.selection_range),
        other => panic!("unexpected second step {:?}", other),
    }
}

#[test]
fn test_start_resolution_index_hit_finishes() {
    let mut m = model();
    m.symbol_index.insert(entry("helper", "file:///project/src/lib.rs", 7));
    let (stage, action) = start_resolution(&m, "helper", &[], true);
    assert!(stage.is_none());
    match action {
        ResolutionAction::Finish(ResolveResult::Found(e)) => assert_eq!(e.name, "helper"),
        other => panic!("unexpected action {:?}", other),
    }
}

#[test]
fn test_start_resolution_without_server_finishes_not_found() {
    let (stage, action) = start_resolution(&model(), "missing", &[], false);
    assert!(stage.is_none());
    assert!(matches!(action, ResolutionAction::Finish(ResolveResult::NotFound)));
}

#[test]
fn test_start_resolution_asks_workspace_symbols() {
    let (stage, action) = start_resolution(&model(), "missing", &[], true);
    assert!(matches!(stage, Some(ResolutionStage::AwaitWorkspaceSymbols)));
    match action {
        ResolutionAction::AskWorkspaceSymbols(q) => assert_eq!(q, "missing"),
        other => panic!("unexpected action {:?}", other),
    }
}

#[test]
fn test_continue_resolution_workspace_symbol_found() {
    let symbols = vec![SymbolInformation {
        name: "helper".to_string(),
        kind: SymbolKind::Function,
        location: Location { uri: "file:///project/src/a.rs".to_string(), range: span(2, 0, 5, 1) },
        container_name: None,
    }];
    let (stage, action) = continue_resolution(
        "file:///project",
        "helper",
        &[],
        ResolutionStage::AwaitWorkspaceSymbols,
        ServerAnswer::Symbols(symbols),
    );
    assert!(stage.is_none());
    match action {
        ResolutionAction::Finish(ResolveResult::Found(e)) => assert_eq!(e.uri, "file:///project/src/a.rs"),
        other => panic!("unexpected action {:?}", other),
    }
}

#[test]
fn test_continue_resolution_failed_request_goes_to_file_tree() {
    let sels = selectors(&["@file:src/a.rs", "@line:3"]);
    let (stage, action) = continue_resolution(
        "file:///project",
        "x",
        &sels,
        ResolutionStage::AwaitWorkspaceSymbols,
        ServerAnswer::Failed,
    );
    match stage {
        Some(ResolutionStage::AwaitFieldTree { uri, line }) => {
            assert_eq!(uri, "file:///project/src/a.rs");
            assert_eq!(line, 2);
        }
        other => panic!("unexpected stage {:?}", other),
    }
    match action {
        ResolutionAction::AskDocumentSymbols(u) => assert_eq!(u, "file:///project/src/a.rs"),
        other => panic!("unexpected action {:?}", other),
    }
}

#[test]
fn test_continue_resolution_struct_tier() {
    let sels = selectors(&["@struct:Config"]);
    let (stage, action) = continue_resolution(
        "file:///project",
        "port",
        &sels,
        ResolutionStage::AwaitWorkspaceSymbols,
        ServerAnswer::Symbols(vec![]),
    );
    assert!(matches!(stage, Some(ResolutionStage::AwaitStructSymbols { .. })));
    match action {
        ResolutionAction::AskWorkspaceSymbols(q) => assert_eq!(q, "Config"),
        other => panic!("unexpected action {:?}", other),
    }
    let found = vec![SymbolInformation {
        name: "Config".to_string(),
        kind: SymbolKind::Struct,
        location: Location { uri: "file:///project/src/config.rs".to_string(), range: span(0, 0, 4, 1) },
        container_name: None,
    }];
    let (stage, action) = continue_resolution(
        "file:///project",
        "port",
        &sels,
        stage.unwrap(),
        ServerAnswer::Symbols(found),
    );
    assert!(matches!(action, ResolutionAction::AskDocumentSymbols(ref u) if u == "file:///project/src/config.rs"));
    let tree = vec![DocumentSymbol {
        name: "Config".to_string(),
        kind: SymbolKind::Struct,
        range: span(0, 0, 4, 1),
        selection_range: span(0, 11, 0, 17),
        children: Some(vec![DocumentSymbol {
            name: "port".to_string(),
            kind: SymbolKind::Field,
            range: span(1, 4, 1, 18),
            selection_range: span(1, 8, 1, 12),
            children: None,
        }]),
    }];
    let (stage, action) = continue_resolution(
        "file:///project",
        "port",
        &sels,
        stage.unwrap(),
        ServerAnswer::Tree(tree),
    );
    assert!(stage.is_none());
    match action {
        ResolutionAction::Finish(ResolveResult::Found(e)) => {
            assert_eq!(e.name, "port");
            assert_eq!(e.uri, "file:///project/src/config.rs");
            assert_eq!(e.container_name, Some("Config".to_string()));
        }
        other => panic!("unexpected action {:?}", other),
    }
}

#[test]
fn test_continue_resolution_nothing_left_is_not_found() {
    let (stage, action) = continue_resolution(
        "file:///project",
        "x",
        &[],
        ResolutionStage::AwaitWorkspaceSymbols,
        ServerAnswer::Failed,
    );
    assert!(stage.is_none());
    assert!(matches!(action, ResolutionAction::Finish(ResolveResult::NotFound)));
}

#[test]
fn test_diagnose_is_safe_looks_only_at_the_reported_file() {
    let mut m = model();
    m.update_diagnostics("file:///project/src/a.rs", vec![diag(1, "E123é broken")]);
    m.update_diagnostics("file:///project/src/b.rs", vec![diag(2, "unused variable: `x`")]);
    let b = vec!["src/b.rs".to_string()];
    assert!(diagnose_is_safe(&m, &b));
    assert!(handle_diagnose(&m, &b).contains("unused variable"));
    let a = vec!["src/a.rs".to_string()];
    assert!(!diagnose_is_safe(&m, &a));
    assert!(!diagnose_is_safe(&m, &[]));
}

#[test]
fn test_unused_is_safe_looks_only_at_findings() {
    let mut m = model();
    m.update_diagnostics("file:///project/src/a.rs", vec![diag(1, "E123é broken")]);
    m.update_diagnostics("file:///project/src/b.rs", vec![diag(2, "unused variable: `x`")]);
    assert!(unused_is_safe(&m, &[]));
    assert!(handle_unused(&m, &[]).contains("unused variable"));
}

#[test]
fn test_edit_order_does_not_matter() {
    let content = "let a = 1;\nlet b = 2;\nlet c = 3;";
    let forward = vec![edit(0, 4, 0, 5, "alpha"), edit(1, 4, 1, 5, "beta"), edit(2, 8, 2, 9, "30")];
    let backward = vec![edit(2, 8, 2, 9, "30"), edit(0, 4, 0, 5, "alpha"), edit(1, 4, 1, 5, "beta")];
    let expected = "let alpha = 1;\nlet beta = 2;\nlet c = 30;";
    assert_eq!(apply_text_edits(content, &forward), expected);
    assert_eq!(apply_text_edits(content, &backward), expected);
}

#[test]
fn test_touching_edits_replace_at_original_offsets() {
    let content = "abcdef";
    let edits = vec![edit(0, 0, 0, 2, "XY"), edit(0, 2, 0, 4, "")];
    assert_eq!(apply_text_edits(content, &edits), "XYef");
}

#[test]
fn test_register_many_is_register_one_by_one() {
    let specs = vec![
        spec("add", "add TYPE LABEL [key:value]", "create"),
        spec("remove", "remove SELECTOR", "modify"),
        spec("connect", "connect SRC -> TGT", "create"),
    ];
    let mut batch = VerbRegistry::new();
    batch.register_many(specs.clone());
    let mut single = VerbRegistry::new();
    for s in specs {
        single.register(s);
    }
    for name in &["add", "remove", "connect", "missing"] {
        let fields = |r: &VerbRegistry| r.lookup(name).map(|s| (s.name.clone(), s.syntax.clone(), s.category.clone()));
        assert_eq!(fields(&batch), fields(&single));
    }
    assert_eq!(batch.verbs().len(), single.verbs().len());
    assert_eq!(batch.generate_reference_card(None), single.generate_reference_card(None));
}

#[test]
fn test_line_range_plus_sign_and_overflow() {
    assert_eq!(parse_line_range("+3-7"), Some((3, 7)));
    assert_eq!(parse_line_range("4294967295-4294967295"), Some((4294967295, 4294967295)));
    assert_eq!(parse_line_range("4294967296-4294967297"), None);
    assert_eq!(parse_line_range("+-3"), None);
    assert_eq!(parse_line_range("1-2x"), None);
}

#[test]
fn test_document_sync_opens_then_changes() {
    let mut docs = OpenDocuments::new();
    assert!(docs.is_empty());
    assert_eq!(docs.note_sync("file:///project/src/a.rs"), DocumentSync::Open { version: 1 });
    assert!(!docs.is_empty());
    assert_eq!(docs.note_sync("file:///project/src/a.rs"), DocumentSync::Change { version: 2 });
    assert_eq!(docs.note_sync("file:///project/src/b.rs"), DocumentSync::Open { version: 1 });
    assert_eq!(docs.note_sync("file:///project/src/a.rs"), DocumentSync::Change { version: 3 });
    assert_eq!(docs.note_sync("file:///project/src/b.rs"), DocumentSync::Change { version: 2 });
}
