//! The verbs of the protocol and their registration.
use crate::fcpcore::verb_registry::{VerbRegistry, VerbSpec};
use vstd::prelude::*;

verus! {

/// Name, syntax and category of each spec.
pub open spec fn verb_fields(specs: Seq<VerbSpec>) -> Seq<(Seq<char>, Seq<char>, Seq<char>)> {
    specs.map_values(|s: VerbSpec| (s.name@, s.syntax@, s.category@))
}

/// The query verbs: name, syntax and category.
pub open spec fn query_verb_table() -> Seq<(Seq<char>, Seq<char>, Seq<char>)> {
    seq![
        ("find"@, "find QUERY [kind:KIND]"@, "navigation"@),
        ("def"@, "def SYMBOL [@selectors...]"@, "navigation"@),
        ("refs"@, "refs SYMBOL [@selectors...]"@, "navigation"@),
        ("symbols"@, "symbols PATH [kind:KIND]"@, "navigation"@),
        ("diagnose"@, "diagnose [PATH] [@all]"@, "inspection"@),
        ("inspect"@, "inspect SYMBOL [@selectors...]"@, "inspection"@),
        ("callers"@, "callers SYMBOL [@selectors...]"@, "inspection"@),
        ("callees"@, "callees SYMBOL [@selectors...]"@, "inspection"@),
        ("impl"@, "impl SYMBOL [@selectors...]"@, "navigation"@),
        ("map"@, "map"@, "inspection"@),
        ("unused"@, "unused [@file:PATH]"@, "inspection"@),
    ]
}

/// The mutation verbs: name, syntax and category.
pub open spec fn mutation_verb_table() -> Seq<(Seq<char>, Seq<char>, Seq<char>)> {
    seq![
        ("rename"@, "rename SYMBOL NEW_NAME [@selectors...]"@, "mutation"@),
        ("extract"@, "extract FUNC_NAME @file:PATH @lines:N-M"@, "mutation"@),
        ("inline"@, "inline SYMBOL [@selectors...]"@, "mutation"@),
        (
            "generate"@,
            "generate TRAIT @struct:NAME  (derive: Debug Clone Copy PartialEq Eq Hash PartialOrd Ord Default)"@,
            "mutation"@,
        ),
        ("import"@, "import SYMBOL @file:PATH @line:N"@, "mutation"@),
    ]
}

/// The session verbs: name, syntax and category.
pub open spec fn session_verb_table() -> Seq<(Seq<char>, Seq<char>, Seq<char>)> {
    seq![
        ("open"@, "open PATH"@, "session"@),
        ("status"@, "status"@, "session"@),
        ("close"@, "close"@, "session"@),
    ]
}

fn verb(name: &str, syntax: &str, category: &str) -> (r: VerbSpec)
    ensures
        (r.name@, r.syntax@, r.category@) == (name@, syntax@, category@),
{
    VerbSpec { name: name.to_owned(), syntax: syntax.to_owned(), category: category.to_owned() }
}

fn push_verb(specs: &mut Vec<VerbSpec>, name: &str, syntax: &str, category: &str)
    ensures
        verb_fields(final(specs)@) == verb_fields(old(specs)@).push((name@, syntax@, category@)),
{
    let ghost prev = specs@;
    specs.push(verb(name, syntax, category));
    assert(verb_fields(specs@) =~= verb_fields(prev).push((name@, syntax@, category@)));
}

/// Registers the query verbs.
pub fn register_query_verbs(registry: &mut VerbRegistry)
    ensures
        final(registry)@.take(old(registry)@.len() as int) == old(registry)@,
        verb_fields(final(registry)@.skip(old(registry)@.len() as int)) == query_verb_table(),
{
    let mut specs: Vec<VerbSpec> = Vec::new();
    push_verb(&mut specs, "find", "find QUERY [kind:KIND]", "navigation");
    push_verb(&mut specs, "def", "def SYMBOL [@selectors...]", "navigation");
    push_verb(&mut specs, "refs", "refs SYMBOL [@selectors...]", "navigation");
    push_verb(&mut specs, "symbols", "symbols PATH [kind:KIND]", "navigation");
    push_verb(&mut specs, "diagnose", "diagnose [PATH] [@all]", "inspection");
    push_verb(&mut specs, "inspect", "inspect SYMBOL [@selectors...]", "inspection");
    push_verb(&mut specs, "callers", "callers SYMBOL [@selectors...]", "inspection");
    push_verb(&mut specs, "callees", "callees SYMBOL [@selectors...]", "inspection");
    push_verb(&mut specs, "impl", "impl SYMBOL [@selectors...]", "navigation");
    push_verb(&mut specs, "map", "map", "inspection");
    push_verb(&mut specs, "unused", "unused [@file:PATH]", "inspection");
    assert(verb_fields(specs@) =~= query_verb_table());
    let ghost before = registry@;
    registry.register_many(specs);
    assert(registry@.take(before.len() as int) =~= before);
    assert(registry@.skip(before.len() as int) =~= specs@);
}

/// Registers the mutation verbs.
pub fn register_mutation_verbs(registry: &mut VerbRegistry)
    ensures
        final(registry)@.take(old(registry)@.len() as int) == old(registry)@,
        verb_fields(final(registry)@.skip(old(registry)@.len() as int)) == mutation_verb_table(),
{
    let mut specs: Vec<VerbSpec> = Vec::new();
    push_verb(&mut specs, "rename", "rename SYMBOL NEW_NAME [@selectors...]", "mutation");
    push_verb(&mut specs, "extract", "extract FUNC_NAME @file:PATH @lines:N-M", "mutation");
    push_verb(&mut specs, "inline", "inline SYMBOL [@selectors...]", "mutation");
    push_verb(
        &mut specs,
        "generate",
        "generate TRAIT @struct:NAME  (derive: Debug Clone Copy PartialEq Eq Hash PartialOrd Ord Default)",
        "mutation",
    );
    push_verb(&mut specs, "import", "import SYMBOL @file:PATH @line:N", "mutation");
    assert(verb_fields(specs@) =~= mutation_verb_table());
    let ghost before = registry@;
    registry.register_many(specs);
    assert(registry@.take(before.len() as int) =~= before);
    assert(registry@.skip(before.len() as int) =~= specs@);
}

/// Registers the session verbs.
pub fn register_session_verbs(registry: &mut VerbRegistry)
    ensures
        final(registry)@.take(old(registry)@.len() as int) == old(registry)@,
        verb_fields(final(registry)@.skip(old(registry)@.len() as int)) == session_verb_table(),
{
    let mut specs: Vec<VerbSpec> = Vec::new();
    push_verb(&mut specs, "open", "open PATH", "session");
    push_verb(&mut specs, "status", "status", "session");
    push_verb(&mut specs, "close", "close", "session");
    assert(verb_fields(specs@) =~= session_verb_table());
    let ghost before = registry@;
    registry.register_many(specs);
    assert(registry@.take(before.len() as int) =~= before);
    assert(registry@.skip(before.len() as int) =~= specs@);
}

} // verus!
