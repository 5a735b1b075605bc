use fcp_rust::domain::model::RustModel;
use fcp_rust::domain::mutation::{
    add_derive, canonical_trait_name, check_inline_arguments, check_rename_arguments,
    choose_extract_action, choose_generate_action, choose_import_action, choose_inline_action,
    derive_summary, file_uri, find_derive_above, is_derivable, placeholder_name_position,
    plan_extract, plan_generate, plan_import,
};
use fcp_rust::lsp::types::{CodeAction, WorkspaceEdit};

fn make_model() -> RustModel {
    RustModel::new(url::Url::parse("file:///project").unwrap().as_str().to_string())
}

fn strings(v: &[&str]) -> Vec<String> {
    v.iter().map(|s| s.to_string()).collect()
}

fn action(title: &str, kind: Option<&str>, preferred: Option<bool>, with_edit: bool) -> CodeAction {
    CodeAction {
        title: title.to_string(),
        kind: kind.map(|k| k.to_string()),
        edit: if with_edit {
            Some(WorkspaceEdit { changes: None, document_changes: None })
        } else {
            None
        },
        is_preferred: preferred,
    }
}


#[test]
fn test_is_derivable() {
    assert!(is_derivable("Debug"));
    assert!(is_derivable("debug"));
    assert!(is_derivable("Clone"));
    assert!(is_derivable("PartialEq"));
    assert!(!is_derivable("Display"));
    assert!(!is_derivable("Iterator"));
    assert!(!is_derivable("Serialize"));
}

#[test]
fn test_canonical_trait_name() {
    assert_eq!(canonical_trait_name("debug"), "Debug");
    assert_eq!(canonical_trait_name("partialeq"), "PartialEq");
    assert_eq!(canonical_trait_name("Display"), "Display");
}

#[test]
fn test_find_derive_above_present() {
    let lines = vec![
        "#[derive(Clone, PartialEq)]",
        "pub struct Config {",
        "    name: String,",
        "}",
    ];
    let (idx, inner) = find_derive_above(&lines, 1);
    assert_eq!(idx, Some(0));
    assert_eq!(inner.as_deref(), Some("Clone, PartialEq"));
}

#[test]
fn test_find_derive_above_with_doc_comment() {
    let lines = vec![
        "#[derive(Clone)]",
        "/// Documentation",
        "pub struct Config {",
        "}",
    ];
    let (idx, inner) = find_derive_above(&lines, 2);
    assert_eq!(idx, Some(0));
    assert_eq!(inner.as_deref(), Some("Clone"));
}

#[test]
fn test_find_derive_above_missing() {
    let lines = vec![
        "pub struct Config {",
        "    name: String,",
        "}",
    ];
    let (idx, inner) = find_derive_above(&lines, 0);
    assert_eq!(idx, None);
    assert_eq!(inner, None);
}

#[test]
fn test_find_derive_above_with_other_attrs() {
    let lines = vec![
        "#[derive(Clone)]",
        "#[serde(rename_all = \"camelCase\")]",
        "pub struct Config {",
        "}",
    ];
    let (idx, inner) = find_derive_above(&lines, 2);
    assert_eq!(idx, Some(0));
    assert_eq!(inner.as_deref(), Some("Clone"));
}

#[test]
fn test_file_uri_absolute() {
    let model = make_model();
    assert_eq!(
        file_uri(&model, "file:///other/path.rs"),
        "file:///other/path.rs"
    );
}

#[test]
fn test_file_uri_relative() {
    let model = make_model();
    assert_eq!(
        file_uri(&model, "src/main.rs"),
        "file:///project/src/main.rs"
    );
}

#[test]
fn test_plan_extract_ok() {
    let model = make_model();
    let plan = plan_extract(
        &model,
        &strings(&["validate"]),
        &strings(&["@file:src/server.rs", "@lines:15-30"]),
    )
    .ok()
    .unwrap();
    assert_eq!(plan.func_name, "validate");
    assert_eq!(plan.uri, "file:///project/src/server.rs");
    assert_eq!(plan.start_line, 14);
    assert_eq!(plan.end_line, 29);
}

#[test]
fn test_plan_extract_errors() {
    let model = make_model();
    assert_eq!(
        plan_extract(&model, &[], &[]).err().unwrap(),
        "! extract requires FUNC_NAME."
    );
    assert_eq!(
        plan_extract(&model, &strings(&["f"]), &strings(&["@lines:1-2"])).err().unwrap(),
        "! extract requires @file:PATH selector."
    );
    assert_eq!(
        plan_extract(&model, &strings(&["f"]), &strings(&["@file:a.rs"])).err().unwrap(),
        "! extract requires @lines:N-M selector."
    );
    assert_eq!(
        plan_extract(&model, &strings(&["f"]), &strings(&["@file:a.rs", "@lines:9-3"]))
            .err()
            .unwrap(),
        "! invalid line range '9-3'. Use @lines:N-M."
    );
}

#[test]
fn test_plan_import() {
    let model = make_model();
    let plan = plan_import(
        &model,
        &strings(&["HashMap"]),
        &strings(&["@file:src/lib.rs", "@line:1"]),
    )
    .ok()
    .unwrap();
    assert_eq!(plan.symbol, "HashMap");
    assert_eq!(plan.file_value, "src/lib.rs");
    assert_eq!(plan.uri, "file:///project/src/lib.rs");
    assert_eq!(plan.line, 1);
    assert_eq!(plan.lsp_line, 0);
    assert_eq!(
        plan_import(&model, &strings(&["X"]), &strings(&["@file:a.rs", "@line:x"]))
            .err()
            .unwrap(),
        "! invalid line number."
    );
    assert_eq!(
        plan_import(&model, &strings(&["X"]), &strings(&["@file:a.rs"])).err().unwrap(),
        "! import requires @line:N selector."
    );
    assert_eq!(
        plan_import(&model, &[], &[]).err().unwrap(),
        "! import requires SYMBOL."
    );
}

#[test]
fn test_argument_checks() {
    assert_eq!(
        check_rename_arguments(&strings(&["Config"])).unwrap(),
        "! rename requires SYMBOL and NEW_NAME."
    );
    assert!(check_rename_arguments(&strings(&["Config", "Settings"])).is_none());
    assert_eq!(check_inline_arguments(&[]).unwrap(), "! inline requires SYMBOL.");
    assert!(check_inline_arguments(&strings(&["helper"])).is_none());
}

#[test]
fn test_plan_generate() {
    let (t, s) = plan_generate(&strings(&["Debug"]), &strings(&["@struct:Config"])).ok().unwrap();
    assert_eq!(t, "Debug");
    assert_eq!(s, "Config");
    assert_eq!(
        plan_generate(&strings(&["Debug"]), &[]).err().unwrap(),
        "! generate requires @struct:NAME selector."
    );
    assert_eq!(plan_generate(&[], &[]).err().unwrap(), "! generate requires TRAIT.");
}

#[test]
fn test_choose_extract_action() {
    let actions = vec![
        action("Extract into variable", Some("refactor.extract.variable"), None, true),
        action("Extract into function", Some("refactor.extract.function"), None, true),
        action("Inline", Some("refactor.inline"), None, true),
    ];
    assert_eq!(choose_extract_action(&actions).ok().unwrap(), 1);
    let none = vec![action("Inline", Some("refactor.inline"), None, true)];
    assert_eq!(
        choose_extract_action(&none).err().unwrap(),
        "! no extract action available for the selected range."
    );
    let no_edit = vec![action("Extract into function", Some("refactor.extract"), None, false)];
    assert_eq!(choose_extract_action(&no_edit).err().unwrap(), "! extract action has no edit.");
}

#[test]
fn test_choose_inline_action_lists_choices() {
    let actions = vec![
        action("Inline call", Some("refactor.inline.call"), None, true),
        action("Inline all calls", Some("refactor.inline"), None, true),
    ];
    let answer = choose_inline_action(&actions, "helper").err().unwrap();
    assert_eq!(
        answer,
        "? Multiple code actions available (2):\n  1. [refactor.inline.call] Inline call\n  2. [refactor.inline] Inline all calls"
    );
    let preferred = vec![
        action("Inline call", Some("refactor.inline.call"), None, true),
        action("Inline all calls", Some("refactor.inline"), Some(true), true),
    ];
    assert_eq!(choose_inline_action(&preferred, "helper").ok().unwrap(), 1);
    assert_eq!(
        choose_inline_action(&[], "helper").err().unwrap(),
        "! no inline action available for 'helper'."
    );
}

#[test]
fn test_choose_generate_action_prefers_trait() {
    let actions = vec![
        action("Generate new", None, None, true),
        action("Implement Display for Config", None, None, true),
    ];
    assert_eq!(choose_generate_action(&actions, "Display", "Config").ok().unwrap(), 1);
    assert_eq!(
        choose_generate_action(&[], "Display", "Config").err().unwrap(),
        "! no generate action for 'Display' on struct 'Config'."
    );
}

#[test]
fn test_choose_import_action() {
    let actions = vec![
        action("Import `std::collections::HashMap`", Some("quickfix"), None, true),
        action("Remove unused", Some("quickfix"), None, true),
    ];
    assert_eq!(choose_import_action(&actions, "HashMap", "src/lib.rs", 3).ok().unwrap(), 0);
    assert_eq!(
        choose_import_action(&actions[1..], "HashMap", "src/lib.rs", 3).err().unwrap(),
        "! no import action for 'HashMap' at src/lib.rs:3."
    );
}

#[test]
fn test_add_derive_appends_to_existing_list() {
    let content = "use std::fmt;\n\n#[derive(Debug)]\npub struct Config {\n    port: u16,\n}\n";
    let out = add_derive(content, 3, "Clone", "Config").ok().unwrap();
    assert_eq!(
        out,
        "use std::fmt;\n\n#[derive(Debug, Clone)]\npub struct Config {\n    port: u16,\n}\n"
    );
}

#[test]
fn test_add_derive_inserts_new_attribute_with_indent() {
    let content = "mod inner {\n    /// Docs\n    struct Point {\n        x: i32,\n    }\n}";
    let out = add_derive(content, 2, "Default", "Point").ok().unwrap();
    assert_eq!(
        out,
        "mod inner {\n    /// Docs\n    #[derive(Default)]\n    struct Point {\n        x: i32,\n    }\n}"
    );
}

#[test]
fn test_add_derive_already_derived() {
    let content = "#[derive(Debug, clone)]\nstruct S;\n";
    assert_eq!(
        add_derive(content, 1, "Clone", "S").err().unwrap(),
        "! Clone is already derived for S."
    );
}

#[test]
fn test_add_derive_twice_is_refused() {
    let content = "struct S;\n";
    let once = add_derive(content, 0, "Hash", "S").ok().unwrap();
    assert_eq!(once, "#[derive(Hash)]\nstruct S;\n");
    assert_eq!(
        add_derive(once.as_str(), 1, "Hash", "S").err().unwrap(),
        "! Hash is already derived for S."
    );
}

#[test]
fn test_derive_summary() {
    assert_eq!(
        derive_summary("file:///project", "file:///project/src/lib.rs", "Debug", "Config"),
        "generate: #[derive(Debug)] for Config in src/lib.rs (1 file, 1 edit)\n  src/lib.rs: 1 edit"
    );
}

#[test]
fn test_placeholder_name_position() {
    let content = "fn main() {\n    fun_name();\n}\n\nfn fun_name() {\n}\n";
    assert_eq!(placeholder_name_position(content), Some((4, 3)));
    assert_eq!(placeholder_name_position("fn main() {}"), None);
    assert_eq!(placeholder_name_position("fn fun_name() {}"), Some((0, 3)));
}
