use fcp_rust::domain::answers::{find_in_index, inspect_answer, no_symbols_answer};
use fcp_rust::domain::format::format_definition;
use fcp_rust::domain::model::RustModel;
use fcp_rust::domain::query::{
    find_by_name_in_doc_symbols, find_in_doc_symbols, handle_diagnose, handle_map, handle_unused,
};
use fcp_rust::domain::resolution::{field_lookup_target, settle_resolution};
use fcp_rust::lsp::types::{Diagnostic, DiagnosticSeverity};
use fcp_rust::resolver::index::SymbolEntry;
use fcp_rust::resolver::pipeline::SymbolResolver;
use fcp_rust::resolver::selectors::parse_selector;
use fcp_rust::lsp::types::{DocumentSymbol, Position, Range, SymbolKind};

fn pos(line: u32, character: u32) -> Position {
    Position { line, character }
}

fn range(start_line: u32, end_line: u32) -> Range {
    Range {
        start: pos(start_line, 0),
        end: pos(end_line, 0),
    }
}

#[test]
fn test_find_in_doc_symbols_basic() {
    let symbols = vec![DocumentSymbol {
        name: "Config".to_string(),
        kind: SymbolKind::Struct,
        range: range(10, 20),
        selection_range: range(10, 10),
        children: Some(vec![DocumentSymbol {
            name: "port".to_string(),
            kind: SymbolKind::Field,
            range: range(12, 12),
            selection_range: range(12, 12),
            children: None,
        }]),
    }];
    // Line 12 (0-indexed) should find "port" inside "Config"
    let entry = find_in_doc_symbols(&symbols, "port", 12, None).unwrap();
    assert_eq!(entry.name, "port");
    assert_eq!(entry.container_name, Some("Config".to_string()));
    assert_eq!(entry.kind, SymbolKind::Field);
}

#[test]
fn test_find_in_doc_symbols_not_found() {
    let symbols = vec![DocumentSymbol {
        name: "Config".to_string(),
        kind: SymbolKind::Struct,
        range: range(10, 20),
        selection_range: range(10, 10),
        children: None,
    }];
    assert!(find_in_doc_symbols(&symbols, "port", 12, None).is_none());
}

#[test]
fn test_find_by_name_in_doc_symbols_basic() {
    let symbols = vec![
        DocumentSymbol {
            name: "host".to_string(),
            kind: SymbolKind::Field,
            range: range(11, 11),
            selection_range: range(11, 11),
            children: None,
        },
        DocumentSymbol {
            name: "port".to_string(),
            kind: SymbolKind::Field,
            range: range(12, 12),
            selection_range: range(12, 12),
            children: None,
        },
    ];
    let entry = find_by_name_in_doc_symbols(&symbols, "port", Some("Config")).unwrap();
    assert_eq!(entry.name, "port");
    assert_eq!(entry.container_name, Some("Config".to_string()));
}

fn make_entry(name: &str, kind: SymbolKind, uri: &str, container: Option<&str>) -> SymbolEntry {
    SymbolEntry {
        name: name.to_string(),
        kind,
        container_name: container.map(|s| s.to_string()),
        uri: uri.to_string(),
        range: range(0, 5),
        selection_range: range(0, 0),
    }
}

fn make_model_with_index(entries: Vec<SymbolEntry>) -> RustModel {
    let mut model = RustModel::new(url::Url::parse("file:///project").unwrap().as_str().to_string());
    for entry in entries {
        model.symbol_index.insert(entry);
    }
    model
}

fn strings(v: &[&str]) -> Vec<String> {
    v.iter().map(|s| s.to_string()).collect()
}

fn diag(line: u32, severity: DiagnosticSeverity, source: Option<&str>, message: &str) -> Diagnostic {
    Diagnostic {
        range: range(line, line),
        severity: Some(severity),
        code: None,
        source: source.map(|s| s.to_string()),
        message: message.to_string(),
    }
}

/// The answer of a verb that resolves a name from the index and, found, answers with `found`.
fn resolved_answer(model: &RustModel, name: &str, selectors: &[&str], found: impl Fn(&SymbolEntry) -> String) -> String {
    let parsed: Vec<_> = selectors.iter().filter_map(|s| parse_selector(s)).collect();
    let resolver = SymbolResolver::new(&model.symbol_index);
    match settle_resolution(resolver.resolve_from_index(name, &parsed), name, "symbol") {
        Ok(entry) => found(&entry),
        Err(answer) => answer,
    }
}

#[test]
fn test_handle_find_with_results() {
    let model = make_model_with_index(vec![
        make_entry("Config", SymbolKind::Struct, "file:///src/config.rs", None),
        make_entry("Config", SymbolKind::Struct, "file:///src/other.rs", None),
    ]);
    let result = find_in_index(&model, &strings(&["Config"]), None).unwrap();
    assert!(result.contains("matches for 'Config' (2):"));
    assert!(result.contains("config.rs"));
    assert!(result.contains("other.rs"));
}

#[test]
fn test_handle_find_no_results() {
    let model = make_model_with_index(vec![]);
    assert!(find_in_index(&model, &strings(&["NonExistent"]), None).is_none());
    let result = no_symbols_answer("NonExistent");
    assert!(result.contains("no symbols matching 'NonExistent'"));
}

#[test]
fn test_handle_find_with_kind_filter() {
    let model = make_model_with_index(vec![
        make_entry("process", SymbolKind::Function, "file:///src/lib.rs", None),
        make_entry("process", SymbolKind::Module, "file:///src/process.rs", None),
    ]);
    let result = find_in_index(&model, &strings(&["process"]), Some("function")).unwrap();
    assert!(result.contains("(1):"));
    assert!(result.contains("lib.rs"));
}

#[test]
fn test_find_errors() {
    let model = make_model_with_index(vec![]);
    assert_eq!(
        find_in_index(&model, &[], None).unwrap(),
        "! find requires a search query."
    );
    assert_eq!(
        find_in_index(&model, &strings(&["x"]), Some("gadget")).unwrap(),
        "! unknown kind 'gadget'."
    );
}

#[test]
fn test_handle_def_found() {
    let model = make_model_with_index(vec![make_entry(
        "main",
        SymbolKind::Function,
        "file:///src/main.rs",
        None,
    )]);
    let result = resolved_answer(&model, "main", &[], |e| format_definition(&e.uri, &e.range, None));
    assert!(result.contains("Definition:"));
    assert!(result.contains("main.rs"));
}

#[test]
fn test_handle_def_not_found() {
    let model = make_model_with_index(vec![]);
    let result = resolved_answer(&model, "nonexistent", &[], |e| format_definition(&e.uri, &e.range, None));
    assert!(result.contains("not found"));
    assert_eq!(result, "! symbol 'nonexistent' not found.");
}

#[test]
fn test_handle_def_ambiguous() {
    let model = make_model_with_index(vec![
        make_entry("new", SymbolKind::Function, "file:///a.rs", Some("A")),
        make_entry("new", SymbolKind::Function, "file:///b.rs", Some("B")),
    ]);
    let result = resolved_answer(&model, "new", &[], |e| format_definition(&e.uri, &e.range, None));
    assert!(result.contains("Multiple matches"));
    assert!(result.contains("in A"));
    assert!(result.contains("in B"));
}

#[test]
fn test_handle_refs_not_found() {
    let model = make_model_with_index(vec![]);
    let result = resolved_answer(&model, "unknown", &[], |_| String::new());
    assert!(result.contains("not found"));
}

#[test]
fn test_handle_callers_not_found() {
    let model = make_model_with_index(vec![]);
    let result = resolved_answer(&model, "unknown", &[], |_| String::new());
    assert!(result.contains("not found"));
}

#[test]
fn test_handle_callees_not_found() {
    let model = make_model_with_index(vec![]);
    let result = resolved_answer(&model, "unknown", &[], |_| String::new());
    assert!(result.contains("not found"));
}

#[test]
fn test_handle_impl_not_found() {
    let model = make_model_with_index(vec![]);
    let result = resolved_answer(&model, "NonExistent", &[], |_| String::new());
    assert!(result.contains("not found"));
}

#[test]
fn test_handle_inspect_no_client_uses_index() {
    let model = make_model_with_index(vec![make_entry(
        "Config",
        SymbolKind::Struct,
        "file:///src/config.rs",
        None,
    )]);
    let result = resolved_answer(&model, "Config", &[], |e| inspect_answer("Config", e, ""));
    assert!(result.contains("Config (struct)"));
    assert!(result.contains("config.rs"));
}

#[test]
fn test_handle_inspect_not_found() {
    let model = make_model_with_index(vec![]);
    let result = resolved_answer(&model, "NonExistent", &[], |e| inspect_answer("NonExistent", e, ""));
    assert!(result.contains("not found"));
}

#[test]
fn test_resolve_field_no_client_graceful() {
    let model = make_model_with_index(vec![]);
    let result = resolved_answer(&model, "config", &["@file:server.rs", "@line:71"], |e| {
        inspect_answer("config", e, "")
    });
    assert!(result.contains("not found"));
    // the documentSymbol lookup it would fall back to with a server
    let parsed: Vec<_> = ["@file:server.rs", "@line:71"].iter().filter_map(|s| parse_selector(s)).collect();
    assert_eq!(
        field_lookup_target(model.root_uri.as_str(), &parsed),
        Some(("file:///project/server.rs".to_string(), 70))
    );
}

#[test]
fn test_handle_diagnose_file() {
    let mut model = make_model_with_index(vec![]);
    model.update_diagnostics(
        "file:///project/src/main.rs",
        vec![diag(5, DiagnosticSeverity::Error, Some("rustc"), "type mismatch")],
    );
    let result = handle_diagnose(&model, &strings(&["src/main.rs"]));
    assert!(result.contains("1 issues"));
    assert!(result.contains("type mismatch"));
}

#[test]
fn test_handle_diagnose_workspace() {
    let mut model = make_model_with_index(vec![]);
    model.update_diagnostics(
        "file:///project/src/a.rs",
        vec![diag(1, DiagnosticSeverity::Error, None, "err")],
    );
    model.update_diagnostics(
        "file:///project/src/b.rs",
        vec![diag(2, DiagnosticSeverity::Warning, None, "warn")],
    );
    let result = handle_diagnose(&model, &[]);
    assert!(result.contains("1 errors, 1 warnings"));
}

#[test]
fn test_handle_diagnose_clean() {
    let model = make_model_with_index(vec![]);
    let result = handle_diagnose(&model, &[]);
    assert!(result.contains("clean"));
    assert_eq!(result, "Workspace: clean — no diagnostics.");
}

#[test]
fn test_handle_map() {
    let mut model = make_model_with_index(vec![
        make_entry("main", SymbolKind::Function, "file:///src/main.rs", None),
        make_entry("Config", SymbolKind::Struct, "file:///src/config.rs", None),
    ]);
    model.rs_file_count = 5;
    model.update_diagnostics(
        "file:///src/main.rs",
        vec![diag(0, DiagnosticSeverity::Warning, None, "unused")],
    );
    let result = handle_map(&model);
    assert!(result.contains("Workspace:"));
    assert!(result.contains("Files: 5"));
    assert!(result.contains("Symbols: 2"));
    assert!(result.contains("0 errors, 1 warnings"));
}

#[test]
fn test_handle_unused_empty() {
    let model = make_model_with_index(vec![]);
    let result = handle_unused(&model, &[]);
    assert!(result.contains("No unused symbols found"));
}

#[test]
fn test_handle_unused_with_matches() {
    let mut model = make_model_with_index(vec![]);
    model.update_diagnostics(
        "file:///project/src/main.rs",
        vec![
            diag(5, DiagnosticSeverity::Warning, Some("rustc"), "unused variable `x`"),
            diag(10, DiagnosticSeverity::Error, Some("rustc"), "type mismatch"),
        ],
    );
    let result = handle_unused(&model, &[]);
    assert!(result.contains("Unused symbols (1):"));
    assert!(result.contains("unused variable"));
    assert!(!result.contains("type mismatch"));
}

#[test]
fn test_handle_unused_file_filter() {
    let mut model = make_model_with_index(vec![]);
    model.update_diagnostics(
        "file:///project/src/a.rs",
        vec![diag(1, DiagnosticSeverity::Warning, None, "unused import")],
    );
    model.update_diagnostics(
        "file:///project/src/b.rs",
        vec![diag(2, DiagnosticSeverity::Warning, None, "unused variable `y`")],
    );
    let result = handle_unused(&model, &strings(&["@file:a.rs"]));
    assert!(result.contains("Unused symbols (1):"));
    assert!(result.contains("a.rs"));
    assert!(!result.contains("b.rs"));
}

#[test]
fn test_handle_unused_sorted_by_file_then_line() {
    let mut model = make_model_with_index(vec![]);
    model.update_diagnostics(
        "file:///project/src/b.rs",
        vec![
            diag(9, DiagnosticSeverity::Warning, None, "function `g` is never used"),
            diag(2, DiagnosticSeverity::Warning, None, "unused import"),
        ],
    );
    model.update_diagnostics(
        "file:///project/src/a.rs",
        vec![diag(4, DiagnosticSeverity::Warning, None, "field `x` is never read")],
    );
    let result = handle_unused(&model, &[]);
    let a = result.find("a.rs").unwrap();
    let b3 = result.find("b.rs L3:").unwrap();
    let b10 = result.find("b.rs L10:").unwrap();
    assert!(a < b3 && b3 < b10);
}

#[test]
fn test_handle_unused_keeps_order_at_one_place() {
    let mut model = make_model_with_index(vec![]);
    model.update_diagnostics(
        "file:///project/src/a.rs",
        vec![
            diag(3, DiagnosticSeverity::Warning, None, "unused import `zeta`"),
            diag(1, DiagnosticSeverity::Warning, None, "unused variable `q`"),
            diag(3, DiagnosticSeverity::Warning, None, "unused import `alpha`"),
        ],
    );
    let result = handle_unused(&model, &[]);
    let zeta = result.find("zeta").unwrap();
    let alpha = result.find("alpha").unwrap();
    let q = result.find("`q`").unwrap();
    assert!(q < zeta && zeta < alpha);
}
