use fcp_rust::domain::answers::{
    hover_contents, inspect_answer, outline_of_information, workspace_matches,
};
use fcp_rust::domain::format::{format_symbol_outline, messages_are_safe, nesting_depth, summary_is_safe};
use fcp_rust::domain::resolution::{
    entry_at_line, field_lookup_target, information_entry, resolve_workspace_symbols,
    settle_resolution, struct_field_entry, struct_file, value_of_type,
};
use fcp_rust::lsp::types::{
    Diagnostic, DocumentSymbol, Hover, HoverContents, Location, MarkupContent, Position, Range,
    SymbolInformation, SymbolKind,
};
use fcp_rust::lsp::workspace_edit::ApplyResult;
use fcp_rust::resolver::pipeline::ResolveResult;
use fcp_rust::resolver::selectors::{parse_selector, SelectorType};

fn range(start_line: u32, end_line: u32) -> Range {
    Range {
        start: Position { line: start_line, character: 0 },
        end: Position { line: end_line, character: 0 },
    }
}

fn info(name: &str, kind: SymbolKind, uri: &str, line: u32, container: Option<&str>) -> SymbolInformation {
    SymbolInformation {
        name: name.to_string(),
        kind,
        location: Location { uri: uri.to_string(), range: range(line, line + 2) },
        container_name: container.map(|s| s.to_string()),
    }
}

fn node(name: &str, kind: SymbolKind, start: u32, end: u32, children: Option<Vec<DocumentSymbol>>) -> DocumentSymbol {
    DocumentSymbol {
        name: name.to_string(),
        kind,
        range: range(start, end),
        selection_range: range(start, start),
        children,
    }
}

fn sels(v: &[&str]) -> Vec<fcp_rust::resolver::selectors::ParsedSelector> {
    v.iter().filter_map(|s| parse_selector(s)).collect()
}

#[test]
fn test_resolve_workspace_symbols_outcomes() {
    let symbols = vec![
        info("Config", SymbolKind::Struct, "file:///p/src/config.rs", 3, None),
        info("Config", SymbolKind::Struct, "file:///p/src/other.rs", 7, Some("legacy")),
    ];
    match resolve_workspace_symbols(&symbols, &[]) {
        ResolveResult::Ambiguous(es) => {
            assert_eq!(es.len(), 2);
            assert_eq!(es[1].uri, "file:///p/src/other.rs");
            assert_eq!(es[1].container_name, Some("legacy".to_string()));
            assert_eq!(es[1].selection_range, es[1].range);
        }
        _ => panic!("expected ambiguity"),
    }
    match resolve_workspace_symbols(&symbols, &sels(&["@file:config.rs"])) {
        ResolveResult::Found(e) => {
            assert_eq!(e.uri, "file:///p/src/config.rs");
            assert_eq!(e.range.start.line, 3);
        }
        _ => panic!("expected one match"),
    }
    assert!(matches!(
        resolve_workspace_symbols(&symbols, &sels(&["@file:none.rs"])),
        ResolveResult::NotFound
    ));
    assert!(matches!(resolve_workspace_symbols(&[], &[]), ResolveResult::NotFound));
}

#[test]
fn test_information_entry() {
    let e = information_entry(&info("run", SymbolKind::Function, "file:///a.rs", 4, Some("App")));
    assert_eq!(e.name, "run");
    assert_eq!(e.kind, SymbolKind::Function);
    assert_eq!(e.uri, "file:///a.rs");
    assert_eq!(e.range, range(4, 6));
    assert_eq!(e.selection_range, range(4, 6));
}

#[test]
fn test_field_lookup_target() {
    assert_eq!(
        field_lookup_target("file:///project/", &sels(&["@line:12", "@file:src/server.rs"])),
        Some(("file:///project/src/server.rs".to_string(), 11))
    );
    assert_eq!(
        field_lookup_target("file:///project", &sels(&["@file:file:///x.rs", "@line:0"])),
        Some(("file:///x.rs".to_string(), 0))
    );
    assert_eq!(field_lookup_target("file:///project", &sels(&["@file:a.rs"])), None);
    assert_eq!(field_lookup_target("file:///project", &sels(&["@file:a.rs", "@line:x"])), None);
    assert_eq!(value_of_type(&sels(&["@file:a.rs", "@file:b.rs"]), SelectorType::File), Some("a.rs".to_string()));
}

#[test]
fn test_entry_at_line() {
    let symbols = vec![node(
        "Config",
        SymbolKind::Struct,
        10,
        20,
        Some(vec![node("port", SymbolKind::Field, 12, 12, None)]),
    )];
    let e = entry_at_line(&symbols, "port", 12, "file:///p/src/config.rs").unwrap();
    assert_eq!(e.uri, "file:///p/src/config.rs");
    assert_eq!(e.container_name, Some("Config".to_string()));
    assert!(entry_at_line(&symbols, "port", 13, "file:///p/src/config.rs").is_none());
}

#[test]
fn test_struct_file_and_field() {
    let symbols = vec![
        info("Config", SymbolKind::Function, "file:///p/src/f.rs", 1, None),
        info("Config", SymbolKind::Struct, "file:///p/src/config.rs", 2, None),
    ];
    assert_eq!(struct_file(&symbols, "Config"), Some("file:///p/src/config.rs".to_string()));
    assert_eq!(struct_file(&symbols, "Other"), None);
    let doc = vec![
        node("helper", SymbolKind::Function, 0, 3, Some(vec![node("port", SymbolKind::Variable, 1, 1, None)])),
        node("Config", SymbolKind::Struct, 5, 9, Some(vec![node("port", SymbolKind::Field, 6, 6, None)])),
    ];
    let e = struct_field_entry(&doc, "Config", "port", "file:///p/src/config.rs").unwrap();
    assert_eq!(e.kind, SymbolKind::Field);
    assert_eq!(e.range.start.line, 6);
    assert_eq!(e.container_name, Some("Config".to_string()));
    assert_eq!(e.uri, "file:///p/src/config.rs");
    assert!(struct_field_entry(&doc, "Config", "host", "file:///p/src/config.rs").is_none());
    assert!(struct_field_entry(&doc, "Missing", "port", "file:///p/src/config.rs").is_none());
}

#[test]
fn test_settle_resolution() {
    assert_eq!(
        settle_resolution(ResolveResult::NotFound, "Config", "struct").err().unwrap(),
        "! struct 'Config' not found."
    );
    let e = information_entry(&info("Config", SymbolKind::Struct, "file:///a.rs", 0, None));
    assert_eq!(settle_resolution(ResolveResult::Found(e), "Config", "symbol").ok().unwrap().name, "Config");
}

#[test]
fn test_workspace_matches() {
    let symbols = vec![info("run", SymbolKind::Function, "file:///p/a.rs", 0, None)];
    let answer = workspace_matches("run", &symbols);
    assert!(answer.starts_with("matches for 'run' (1):"));
    assert!(answer.contains("/p/a.rs"));
    assert_eq!(workspace_matches("run", &[]), "No matches for 'run' found.");
}

#[test]
fn test_outline_of_information() {
    let symbols = vec![
        info("Config", SymbolKind::Struct, "file:///p/a.rs", 2, None),
        info("main", SymbolKind::Function, "file:///p/a.rs", 9, None),
    ];
    let nodes = outline_of_information(&symbols);
    assert_eq!(nodes.len(), 2);
    assert!(nodes[1].children.is_none());
    assert_eq!(nodes[1].range, range(9, 11));
    assert_eq!(nesting_depth(&nodes), Some(0));
    assert_eq!(
        format_symbol_outline("file:///p/a.rs", &nodes, 0),
        "Symbols in /p/a.rs:\n  Config (struct) L3\n  main (function) L10"
    );
}

#[test]
fn test_nesting_depth() {
    let nested = vec![node(
        "A",
        SymbolKind::Module,
        0,
        9,
        Some(vec![node("B", SymbolKind::Struct, 1, 5, Some(vec![node("c", SymbolKind::Field, 2, 2, None)]))]),
    )];
    assert_eq!(nesting_depth(&nested), Some(2));
    assert_eq!(nesting_depth(&[]), Some(0));
}

#[test]
fn test_hover_contents_and_inspect_answer() {
    let h = Hover { contents: HoverContents::MarkedStringArray(vec!["a".to_string(), "b".to_string()]) };
    assert_eq!(hover_contents(&h), "a\nb");
    let m = Hover {
        contents: HoverContents::MarkupContent(MarkupContent { kind: "markdown".to_string(), value: "pub fn run()".to_string() }),
    };
    assert_eq!(hover_contents(&m), "pub fn run()");
    let s = Hover { contents: HoverContents::MarkedString("x".to_string()) };
    assert_eq!(hover_contents(&s), "x");
    let e = information_entry(&info("run", SymbolKind::Function, "file:///p/a.rs", 4, None));
    assert_eq!(inspect_answer("run", &e, "pub fn run()"), "run (function) — /p/a.rs L5\n\npub fn run()");
    assert_eq!(inspect_answer("run", &e, ""), "run (function) — /p/a.rs L5");
}

#[test]
fn test_summary_is_safe() {
    assert!(summary_is_safe("E0308: mismatched types"));
    assert!(summary_is_safe("plain message"));
    assert!(summary_is_safe("Eé"));
    assert!(summary_is_safe("Eabé!"));
    assert!(!summary_is_safe("Eabcé"));
    assert!(summary_is_safe(""));
    let d = Diagnostic { range: range(0, 0), severity: None, code: None, source: None, message: "Eabcé".to_string() };
    assert!(!messages_are_safe(&[d]));
}

#[test]
fn test_checked_total_edits() {
    let result = ApplyResult {
        files_changed: vec![("file:///a.rs".to_string(), 2), ("file:///b.rs".to_string(), 3)],
        ..Default::default()
    };
    assert_eq!(result.checked_total_edits(), Some(5));
    let huge = ApplyResult {
        files_changed: vec![("file:///a.rs".to_string(), usize::MAX), ("file:///b.rs".to_string(), 1)],
        ..Default::default()
    };
    assert_eq!(huge.checked_total_edits(), None);
}
