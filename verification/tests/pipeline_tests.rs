use fcp_rust::lsp::types::{Position, Range, SymbolKind};
use fcp_rust::resolver::index::{SymbolEntry, SymbolIndex};
use fcp_rust::resolver::pipeline::{ResolveResult, SymbolResolver};
use fcp_rust::resolver::selectors::parse_selector;

fn make_range(line: u32) -> Range {
    Range {
        start: Position { line, character: 0 },
        end: Position { line, character: 10 },
    }
}

fn make_entry(name: &str, kind: SymbolKind, uri: &str, container: Option<&str>) -> SymbolEntry {
    SymbolEntry {
        name: name.to_string(),
        kind,
        container_name: container.map(|s| s.to_string()),
        uri: uri.to_string(),
        range: make_range(0),
        selection_range: make_range(0),
    }
}

#[test]
fn test_tier1_cache_hit() {
    let mut index = SymbolIndex::new();
    index.insert(make_entry("main", SymbolKind::Function, "file:///main.rs", None));

    let resolver = SymbolResolver::new(&index);
    match resolver.resolve_from_index("main", &[]) {
        ResolveResult::Found(entry) => assert_eq!(entry.name, "main"),
        _ => panic!("expected Found"),
    }
}

#[test]
fn test_tier1_miss_returns_not_found() {
    let index = SymbolIndex::new();
    let resolver = SymbolResolver::new(&index);
    match resolver.resolve_from_index("nonexistent", &[]) {
        ResolveResult::NotFound => {}
        _ => panic!("expected NotFound"),
    }
}

#[test]
fn test_tier1_ambiguous() {
    let mut index = SymbolIndex::new();
    index.insert(make_entry("new", SymbolKind::Function, "file:///a.rs", Some("A")));
    index.insert(make_entry("new", SymbolKind::Function, "file:///b.rs", Some("B")));

    let resolver = SymbolResolver::new(&index);
    match resolver.resolve_from_index("new", &[]) {
        ResolveResult::Ambiguous(entries) => assert_eq!(entries.len(), 2),
        _ => panic!("expected Ambiguous"),
    }
}

#[test]
fn test_tier1_with_selectors() {
    let mut index = SymbolIndex::new();
    index.insert(make_entry("new", SymbolKind::Function, "file:///a.rs", Some("A")));
    index.insert(make_entry("new", SymbolKind::Function, "file:///b.rs", Some("B")));

    let resolver = SymbolResolver::new(&index);
    let selectors = vec![parse_selector("@file:a.rs").unwrap()];
    match resolver.resolve_from_index("new", &selectors) {
        ResolveResult::Found(entry) => {
            assert_eq!(entry.name, "new");
            assert!(entry.uri.contains("a.rs"));
        }
        _ => panic!("expected Found with selector filter"),
    }
}
