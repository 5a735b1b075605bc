use fcp_rust::lsp::types::{Location, Position, Range, SymbolInformation, SymbolKind};
use fcp_rust::resolver::selectors::{
    filter_by_selectors, parse_line_range, parse_selector, symbol_kind_from_string, SelectorType,
};

fn make_sym(
    name: &str,
    kind: SymbolKind,
    uri: &str,
    container: Option<&str>,
    start_line: u32,
    end_line: u32,
) -> SymbolInformation {
    SymbolInformation {
        name: name.to_string(),
        kind,
        location: Location {
            uri: uri.to_string(),
            range: Range {
                start: Position { line: start_line, character: 0 },
                end: Position { line: end_line, character: 0 },
            },
        },
        container_name: container.map(|s| s.to_string()),
    }
}

#[test]
fn test_parse_file_selector() {
    let sel = parse_selector("@file:main.rs").unwrap();
    assert_eq!(sel.selector_type, SelectorType::File);
    assert_eq!(sel.value, "main.rs");
}

#[test]
fn test_parse_struct_selector() {
    let sel = parse_selector("@struct:MyStruct").unwrap();
    assert_eq!(sel.selector_type, SelectorType::Struct);
    assert_eq!(sel.value, "MyStruct");
}

#[test]
fn test_parse_trait_selector() {
    let sel = parse_selector("@trait:Display").unwrap();
    assert_eq!(sel.selector_type, SelectorType::Trait);
    assert_eq!(sel.value, "Display");
}

#[test]
fn test_parse_kind_selector() {
    let sel = parse_selector("@kind:function").unwrap();
    assert_eq!(sel.selector_type, SelectorType::Kind);
    assert_eq!(sel.value, "function");
}

#[test]
fn test_parse_module_selector() {
    let sel = parse_selector("@module:utils").unwrap();
    assert_eq!(sel.selector_type, SelectorType::Module);
    assert_eq!(sel.value, "utils");
}

#[test]
fn test_parse_mod_selector() {
    let sel = parse_selector("@mod:utils").unwrap();
    assert_eq!(sel.selector_type, SelectorType::Module);
    assert_eq!(sel.value, "utils");
}

#[test]
fn test_parse_line_selector() {
    let sel = parse_selector("@line:42").unwrap();
    assert_eq!(sel.selector_type, SelectorType::Line);
    assert_eq!(sel.value, "42");
}

#[test]
fn test_parse_lines_selector() {
    let sel = parse_selector("@lines:15-30").unwrap();
    assert_eq!(sel.selector_type, SelectorType::Lines);
    assert_eq!(sel.value, "15-30");
}

#[test]
fn test_parse_line_range_valid() {
    assert_eq!(parse_line_range("15-30"), Some((15, 30)));
    assert_eq!(parse_line_range("1-1"), Some((1, 1)));
}

#[test]
fn test_parse_line_range_invalid() {
    assert_eq!(parse_line_range("30-15"), None);
    assert_eq!(parse_line_range("abc"), None);
    assert_eq!(parse_line_range("15"), None);
}

#[test]
fn test_parse_unknown_selector() {
    assert!(parse_selector("@unknown:value").is_none());
}

#[test]
fn test_parse_no_at() {
    assert!(parse_selector("file:main.rs").is_none());
}

#[test]
fn test_parse_no_colon() {
    assert!(parse_selector("@file").is_none());
}

#[test]
fn test_filter_by_file() {
    let syms = vec![
        make_sym("foo", SymbolKind::Function, "file:///lib.rs", None, 0, 5),
        make_sym("bar", SymbolKind::Function, "file:///main.rs", None, 0, 5),
    ];
    let sel = vec![parse_selector("@file:main.rs").unwrap()];
    let result = filter_by_selectors(&syms, &sel);
    assert_eq!(result.len(), 1);
    assert_eq!(result[0].name, "bar");
}

#[test]
fn test_filter_by_kind() {
    let syms = vec![
        make_sym("MyStruct", SymbolKind::Struct, "file:///lib.rs", None, 0, 10),
        make_sym("foo", SymbolKind::Function, "file:///lib.rs", None, 12, 20),
    ];
    let sel = vec![parse_selector("@kind:function").unwrap()];
    let result = filter_by_selectors(&syms, &sel);
    assert_eq!(result.len(), 1);
    assert_eq!(result[0].name, "foo");
}

#[test]
fn test_filter_by_struct() {
    let syms = vec![
        make_sym("method_a", SymbolKind::Method, "file:///lib.rs", Some("MyStruct"), 5, 10),
        make_sym("method_b", SymbolKind::Method, "file:///lib.rs", Some("Other"), 15, 20),
    ];
    let sel = vec![parse_selector("@struct:MyStruct").unwrap()];
    let result = filter_by_selectors(&syms, &sel);
    assert_eq!(result.len(), 1);
    assert_eq!(result[0].name, "method_a");
}

#[test]
fn test_filter_by_multiple_selectors() {
    let syms = vec![
        make_sym("foo", SymbolKind::Function, "file:///lib.rs", None, 0, 5),
        make_sym("bar", SymbolKind::Function, "file:///main.rs", None, 0, 5),
        make_sym("baz", SymbolKind::Struct, "file:///main.rs", None, 10, 20),
    ];
    let sel = vec![
        parse_selector("@file:main.rs").unwrap(),
        parse_selector("@kind:function").unwrap(),
    ];
    let result = filter_by_selectors(&syms, &sel);
    assert_eq!(result.len(), 1);
    assert_eq!(result[0].name, "bar");
}

#[test]
fn test_filter_by_line() {
    let syms = vec![
        make_sym("foo", SymbolKind::Function, "file:///lib.rs", None, 0, 5),
        make_sym("bar", SymbolKind::Function, "file:///lib.rs", None, 10, 20),
    ];
    let sel = vec![parse_selector("@line:15").unwrap()];
    let result = filter_by_selectors(&syms, &sel);
    assert_eq!(result.len(), 1);
    assert_eq!(result[0].name, "bar");
}

#[test]
fn test_symbol_kind_from_string_function() {
    assert_eq!(symbol_kind_from_string("function"), Some(SymbolKind::Function));
    assert_eq!(symbol_kind_from_string("fn"), Some(SymbolKind::Function));
}

#[test]
fn test_symbol_kind_from_string_various() {
    assert_eq!(symbol_kind_from_string("struct"), Some(SymbolKind::Struct));
    assert_eq!(symbol_kind_from_string("enum"), Some(SymbolKind::Enum));
    assert_eq!(symbol_kind_from_string("trait"), Some(SymbolKind::Interface));
    assert_eq!(symbol_kind_from_string("method"), Some(SymbolKind::Method));
    assert_eq!(symbol_kind_from_string("module"), Some(SymbolKind::Module));
    assert_eq!(symbol_kind_from_string("constant"), Some(SymbolKind::Constant));
    assert_eq!(symbol_kind_from_string("variable"), Some(SymbolKind::Variable));
    assert_eq!(symbol_kind_from_string("class"), Some(SymbolKind::Class));
    assert_eq!(symbol_kind_from_string("field"), Some(SymbolKind::Field));
    assert_eq!(symbol_kind_from_string("unknown"), None);
}

#[test]
fn test_filter_without_selectors_keeps_all() {
    let symbols = vec![
        make_sym("a", SymbolKind::Function, "file:///x.rs", None, 0, 1),
        make_sym("b", SymbolKind::Struct, "file:///y.rs", None, 2, 3),
    ];
    let kept = filter_by_selectors(&symbols, &[]);
    assert_eq!(kept.len(), 2);
    assert_eq!(kept[1].name, "b");
}

#[test]
fn test_filter_composes() {
    let symbols = vec![
        make_sym("run", SymbolKind::Function, "file:///src/a.rs", None, 0, 1),
        make_sym("run", SymbolKind::Method, "file:///src/a.rs", Some("App"), 5, 9),
        make_sym("run", SymbolKind::Function, "file:///src/b.rs", None, 2, 3),
    ];
    let file = vec![parse_selector("@file:a.rs").unwrap()];
    let kind = vec![parse_selector("@kind:function").unwrap()];
    let both = vec![file[0].clone(), kind[0].clone()];
    let once: Vec<SymbolInformation> = filter_by_selectors(&symbols, &file).into_iter().cloned().collect();
    let twice = filter_by_selectors(&once, &kind);
    let together = filter_by_selectors(&symbols, &both);
    assert_eq!(twice.len(), 1);
    assert_eq!(together.len(), 1);
    assert_eq!(twice[0].location.range, together[0].location.range);
}

#[test]
fn test_selector_value_keeps_colons() {
    let sel = parse_selector("@file:C:/work/main.rs").unwrap();
    assert_eq!(sel.selector_type, SelectorType::File);
    assert_eq!(sel.value, "C:/work/main.rs");
    assert!(parse_selector("@lines:").unwrap().value.is_empty());
}
