use fcp_rust::domain::model::RustModel;
use fcp_rust::lsp::types::{Diagnostic, DiagnosticSeverity, Position, Range};

fn root() -> String {
    url::Url::parse("file:///project").unwrap().as_str().to_string()
}

fn make_diag(severity: DiagnosticSeverity, message: &str) -> Diagnostic {
    Diagnostic {
        range: Range {
            start: Position { line: 0, character: 0 },
            end: Position { line: 0, character: 10 },
        },
        severity: Some(severity),
        code: None,
        source: Some("rustc".to_string()),
        message: message.to_string(),
    }
}

#[test]
fn test_new_model() {
    let model = RustModel::new(root());
    assert_eq!(model.root_uri.as_str(), "file:///project");
    assert_eq!(model.symbol_index.size(), 0);
    assert!(model.diagnostics.is_empty());
    assert!(model.open_documents.is_empty());
    assert_eq!(model.rs_file_count, 0);
}

#[test]
fn test_update_diagnostics() {
    let mut model = RustModel::new(root());
    let diags = vec![
        make_diag(DiagnosticSeverity::Error, "type mismatch"),
        make_diag(DiagnosticSeverity::Warning, "unused variable"),
    ];
    model.update_diagnostics("file:///main.rs", diags);
    assert_eq!(model.diagnostics.len(), 1);
    assert_eq!(model.diagnostics.get("file:///main.rs").unwrap().len(), 2);
}

#[test]
fn test_update_diagnostics_empty_removes() {
    let mut model = RustModel::new(root());
    model.update_diagnostics(
        "file:///main.rs",
        vec![make_diag(DiagnosticSeverity::Error, "err")],
    );
    assert_eq!(model.diagnostics.len(), 1);
    model.update_diagnostics("file:///main.rs", vec![]);
    assert!(model.diagnostics.is_empty());
}

#[test]
fn test_total_diagnostics() {
    let mut model = RustModel::new(root());
    model.update_diagnostics(
        "file:///a.rs",
        vec![
            make_diag(DiagnosticSeverity::Error, "e1"),
            make_diag(DiagnosticSeverity::Error, "e2"),
            make_diag(DiagnosticSeverity::Warning, "w1"),
        ],
    );
    model.update_diagnostics(
        "file:///b.rs",
        vec![make_diag(DiagnosticSeverity::Warning, "w2")],
    );
    let (errors, warnings) = model.total_diagnostics();
    assert_eq!(errors, 2);
    assert_eq!(warnings, 2);
}

#[test]
fn test_diagnostic_count() {
    let mut model = RustModel::new(root());
    assert_eq!(model.diagnostic_count(), 0);
    model.update_diagnostics(
        "file:///a.rs",
        vec![
            make_diag(DiagnosticSeverity::Error, "e1"),
            make_diag(DiagnosticSeverity::Warning, "w1"),
        ],
    );
    model.update_diagnostics(
        "file:///b.rs",
        vec![make_diag(DiagnosticSeverity::Error, "e2")],
    );
    assert_eq!(model.diagnostic_count(), 3);
}

#[test]
fn test_read_after_update_keeps_other_files() {
    let mut model = RustModel::new(root());
    model.update_diagnostics("file:///a.rs", vec![make_diag(DiagnosticSeverity::Error, "e1")]);
    model.update_diagnostics("file:///b.rs", vec![make_diag(DiagnosticSeverity::Warning, "w1")]);
    model.update_diagnostics(
        "file:///a.rs",
        vec![
            make_diag(DiagnosticSeverity::Hint, "h1"),
            make_diag(DiagnosticSeverity::Hint, "h2"),
        ],
    );
    let a = model.diagnostics.get("file:///a.rs").unwrap();
    assert_eq!(a.len(), 2);
    assert_eq!(a[0].message, "h1");
    assert_eq!(model.diagnostics.get("file:///b.rs").unwrap()[0].message, "w1");
    // the file first reported stays first
    assert_eq!(model.diagnostics.entry(0).0, "file:///a.rs");
    model.update_diagnostics("file:///a.rs", vec![]);
    assert!(model.diagnostics.get("file:///a.rs").is_none());
    assert_eq!(model.diagnostics.entry(0).0, "file:///b.rs");
    assert!(model.diagnostics.get("file:///c.rs").is_none());
}

#[test]
fn test_diagnostic_total_fits() {
    let mut model = RustModel::new(root());
    assert!(model.diagnostic_total_fits());
    model.update_diagnostics("file:///a.rs", vec![make_diag(DiagnosticSeverity::Error, "e1")]);
    assert!(model.diagnostic_total_fits());
}
