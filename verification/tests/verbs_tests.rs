use fcp_rust::domain::verbs::{register_mutation_verbs, register_query_verbs, register_session_verbs};
use fcp_rust::fcpcore::verb_registry::VerbRegistry;

#[test]
fn test_register_query_verbs() {
    let mut reg = VerbRegistry::new();
    register_query_verbs(&mut reg);
    let verbs = ["find", "def", "refs", "symbols", "diagnose", "inspect", "callers", "callees", "impl", "map", "unused"];
    for name in &verbs {
        assert!(reg.lookup(name).is_some(), "missing query verb: {}", name);
    }
}

#[test]
fn test_register_session_verbs() {
    let mut reg = VerbRegistry::new();
    register_session_verbs(&mut reg);
    for name in &["open", "status", "close"] {
        assert!(reg.lookup(name).is_some(), "missing session verb: {}", name);
    }
}

#[test]
fn test_query_verb_count() {
    let mut reg = VerbRegistry::new();
    register_query_verbs(&mut reg);
    assert_eq!(reg.verbs().len(), 11);
}

#[test]
fn test_session_verb_count() {
    let mut reg = VerbRegistry::new();
    register_session_verbs(&mut reg);
    assert_eq!(reg.verbs().len(), 3);
}

#[test]
fn test_register_mutation_verbs() {
    let mut reg = VerbRegistry::new();
    register_mutation_verbs(&mut reg);
    let verbs = ["rename", "extract", "inline", "generate", "import"];
    for name in &verbs {
        assert!(reg.lookup(name).is_some(), "missing mutation verb: {}", name);
    }
}

#[test]
fn test_mutation_verb_count() {
    let mut reg = VerbRegistry::new();
    register_mutation_verbs(&mut reg);
    assert_eq!(reg.verbs().len(), 5);
}

#[test]
fn test_reference_card_has_categories() {
    let mut reg = VerbRegistry::new();
    register_query_verbs(&mut reg);
    register_mutation_verbs(&mut reg);
    register_session_verbs(&mut reg);
    let card = reg.generate_reference_card(None);
    assert!(card.contains("NAVIGATION:"), "card missing NAVIGATION");
    assert!(card.contains("INSPECTION:"), "card missing INSPECTION");
    assert!(card.contains("MUTATION:"), "card missing MUTATION");
    assert!(card.contains("SESSION:"), "card missing SESSION");
}

#[test]
fn test_all_verbs_registered() {
    let mut reg = VerbRegistry::new();
    register_query_verbs(&mut reg);
    register_mutation_verbs(&mut reg);
    register_session_verbs(&mut reg);
    assert_eq!(reg.verbs().len(), 19);
}
