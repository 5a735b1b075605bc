use fcp_rust::fcpcore::verb_registry::{VerbRegistry, VerbSpec};
use std::collections::HashMap;

fn create_test_registry() -> VerbRegistry {
    let mut reg = VerbRegistry::new();
    reg.register_many(vec![
        VerbSpec {
            name: "add".to_string(),
            syntax: "add TYPE LABEL [key:value]".to_string(),
            category: "create".to_string(),
        },
        VerbSpec {
            name: "remove".to_string(),
            syntax: "remove SELECTOR".to_string(),
            category: "modify".to_string(),
        },
        VerbSpec {
            name: "connect".to_string(),
            syntax: "connect SRC -> TGT".to_string(),
            category: "create".to_string(),
        },
        VerbSpec {
            name: "style".to_string(),
            syntax: "style REF [fill:#HEX]".to_string(),
            category: "modify".to_string(),
        },
    ]);
    reg
}

#[test]
fn test_register_and_lookup() {
    let mut reg = VerbRegistry::new();
    reg.register(VerbSpec {
        name: "add".to_string(),
        syntax: "add TYPE LABEL".to_string(),
        category: "create".to_string(),
    });
    let spec = reg.lookup("add").expect("expected to find 'add'");
    assert_eq!(spec.name, "add");
    assert_eq!(spec.syntax, "add TYPE LABEL");
    assert_eq!(spec.category, "create");
}

#[test]
fn test_lookup_unknown() {
    let reg = VerbRegistry::new();
    assert!(reg.lookup("nonexistent").is_none());
}

#[test]
fn test_register_many() {
    let reg = create_test_registry();
    for name in &["add", "remove", "connect", "style"] {
        assert!(
            reg.lookup(name).is_some(),
            "expected to find {:?}",
            name
        );
    }
}

#[test]
fn test_verbs() {
    let reg = create_test_registry();
    let verbs = reg.verbs();
    assert_eq!(verbs.len(), 4);
    let names: Vec<&str> = verbs.iter().map(|v| v.name.as_str()).collect();
    for name in &["add", "remove", "connect", "style"] {
        assert!(names.contains(name), "missing verb {:?}", name);
    }
}

#[test]
fn test_reference_card() {
    let reg = create_test_registry();
    let card = reg.generate_reference_card(None);
    assert!(card.contains("CREATE:"), "card missing CREATE:");
    assert!(card.contains("MODIFY:"), "card missing MODIFY:");
    assert!(
        card.contains("  add TYPE LABEL [key:value]"),
        "card missing add syntax"
    );
    assert!(
        card.contains("  connect SRC -> TGT"),
        "card missing connect syntax"
    );
    assert!(
        card.contains("  remove SELECTOR"),
        "card missing remove syntax"
    );
    assert!(
        card.contains("  style REF [fill:#HEX]"),
        "card missing style syntax"
    );
}

#[test]
fn test_reference_card_extra_sections() {
    let reg = create_test_registry();
    let mut extra = HashMap::new();
    extra.insert(
        "Themes".to_string(),
        "  blue  #dae8fc\n  red   #f8cecc".to_string(),
    );
    let card = reg.generate_reference_card(Some(&extra));
    assert!(card.contains("THEMES:"), "card missing THEMES:");
    assert!(
        card.contains("  blue  #dae8fc"),
        "card missing theme content"
    );
}

#[test]
fn test_reference_card_empty() {
    let reg = VerbRegistry::new();
    let card = reg.generate_reference_card(None);
    assert_eq!(card, "");
}

#[test]
fn test_register_overwrites_and_keeps_other_names() {
    let mut reg = create_test_registry();
    reg.register(VerbSpec {
        name: "add".to_string(),
        syntax: "add NEW".to_string(),
        category: "create".to_string(),
    });
    assert_eq!(reg.lookup("add").unwrap().syntax, "add NEW");
    assert_eq!(reg.lookup("remove").unwrap().syntax, "remove SELECTOR");
    assert_eq!(reg.lookup("connect").unwrap().syntax, "connect SRC -> TGT");
}

#[test]
fn test_verbs_one_per_name() {
    let mut reg = create_test_registry();
    reg.register(VerbSpec {
        name: "remove".to_string(),
        syntax: "remove REF".to_string(),
        category: "modify".to_string(),
    });
    let verbs = reg.verbs();
    assert_eq!(verbs.len(), 4);
    let removes: Vec<_> = verbs.iter().filter(|v| v.name == "remove").collect();
    assert_eq!(removes.len(), 1);
    assert_eq!(removes[0].syntax, "remove REF");
}
