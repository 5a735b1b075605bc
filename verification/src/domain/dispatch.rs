//! Which handler an operation goes to, once its verb is known.
use crate::domain::format::{error_text, format_error};
use crate::fcpcore::verb_registry::{latest_named, VerbRegistry};
use crate::text::{equals, push_str};
use vstd::prelude::*;

verus! {

/// The query verbs.
#[derive(Debug, Clone, Copy, PartialEq, Eq, Structural)]
pub enum QueryVerb {
    Find,
    Def,
    Refs,
    Symbols,
    Diagnose,
    Inspect,
    Callers,
    Callees,
    Impl,
    WorkspaceMap,
    Unused,
}

/// The mutation verbs.
#[derive(Debug, Clone, Copy, PartialEq, Eq, Structural)]
pub enum MutationVerb {
    Rename,
    Extract,
    Inline,
    Generate,
    Import,
}

/// The query verb a name stands for.
pub open spec fn query_verb_named(v: Seq<char>) -> Option<QueryVerb> {
    if v == "find"@ {
        Some(QueryVerb::Find)
    } else if v == "def"@ {
        Some(QueryVerb::Def)
    } else if v == "refs"@ {
        Some(QueryVerb::Refs)
    } else if v == "symbols"@ {
        Some(QueryVerb::Symbols)
    } else if v == "diagnose"@ {
        Some(QueryVerb::Diagnose)
    } else if v == "inspect"@ {
        Some(QueryVerb::Inspect)
    } else if v == "callers"@ {
        Some(QueryVerb::Callers)
    } else if v == "callees"@ {
        Some(QueryVerb::Callees)
    } else if v == "impl"@ {
        Some(QueryVerb::Impl)
    } else if v == "map"@ {
        Some(QueryVerb::WorkspaceMap)
    } else if v == "unused"@ {
        Some(QueryVerb::Unused)
    } else {
        None
    }
}

/// The mutation verb a name stands for.
pub open spec fn mutation_verb_named(v: Seq<char>) -> Option<MutationVerb> {
    if v == "rename"@ {
        Some(MutationVerb::Rename)
    } else if v == "extract"@ {
        Some(MutationVerb::Extract)
    } else if v == "inline"@ {
        Some(MutationVerb::Inline)
    } else if v == "generate"@ {
        Some(MutationVerb::Generate)
    } else if v == "import"@ {
        Some(MutationVerb::Import)
    } else {
        None
    }
}

/// The answer for a verb the registry does not know, with the closest known verb, if any.
pub open spec fn unknown_verb_text(verb: Seq<char>, suggestion: Option<Seq<char>>) -> Seq<char> {
    error_text("unknown verb '"@ + verb + "'."@, suggestion)
}

fn unknown_verb(verb: &str, suggestion: Option<&str>) -> (r: String)
    ensures
        r@ == unknown_verb_text(
            verb@,
            match suggestion {
                Some(s) => Some(s@),
                None => None,
            },
        ),
{
    let mut m = String::new();
    push_str(&mut m, "unknown verb '");
    push_str(&mut m, verb);
    push_str(&mut m, "'.");
    format_error(m.as_str(), suggestion)
}

/// Where a query with the verb `verb` goes: an unknown verb is answered with an error (naming
/// the suggested verb, if any); a known verb that is no query verb is unhandled.
pub fn route_query(registry: &VerbRegistry, verb: &str, suggestion: Option<&str>) -> (r: Result<
    QueryVerb,
    String,
>)
    ensures
        latest_named(registry@, verb@) is None ==> (r matches Err(e) && e@ == unknown_verb_text(
            verb@,
            match suggestion {
                Some(s) => Some(s@),
                None => None,
            },
        )),
        latest_named(registry@, verb@) is Some ==> match query_verb_named(verb@) {
            Some(q) => r == Ok::<QueryVerb, String>(q),
            None => (r matches Err(e) && e@ == error_text("unhandled verb '"@ + verb@ + "'."@, None)),
        },
{
    if registry.lookup(verb).is_none() {
        return Err(unknown_verb(verb, suggestion));
    }
    if equals(verb, "find") {
        Ok(QueryVerb::Find)
    } else if equals(verb, "def") {
        Ok(QueryVerb::Def)
    } else if equals(verb, "refs") {
        Ok(QueryVerb::Refs)
    } else if equals(verb, "symbols") {
        Ok(QueryVerb::Symbols)
    } else if equals(verb, "diagnose") {
        Ok(QueryVerb::Diagnose)
    } else if equals(verb, "inspect") {
        Ok(QueryVerb::Inspect)
    } else if equals(verb, "callers") {
        Ok(QueryVerb::Callers)
    } else if equals(verb, "callees") {
        Ok(QueryVerb::Callees)
    } else if equals(verb, "impl") {
        Ok(QueryVerb::Impl)
    } else if equals(verb, "map") {
        Ok(QueryVerb::WorkspaceMap)
    } else if equals(verb, "unused") {
        Ok(QueryVerb::Unused)
    } else {
        let mut m = String::new();
        push_str(&mut m, "unhandled verb '");
        push_str(&mut m, verb);
        push_str(&mut m, "'.");
        Err(format_error(m.as_str(), None))
    }
}

/// Where a mutation with the verb `verb` goes: an unknown verb is answered with an error
/// (naming the suggested verb, if any); without an open workspace nothing is changed; a known
/// verb that is no mutation verb is refused.
pub fn route_mutation(
    registry: &VerbRegistry,
    verb: &str,
    suggestion: Option<&str>,
    workspace_open: bool,
) -> (r: Result<MutationVerb, String>)
    ensures
        latest_named(registry@, verb@) is None ==> (r matches Err(e) && e@ == unknown_verb_text(
            verb@,
            match suggestion {
                Some(s) => Some(s@),
                None => None,
            },
        )),
        latest_named(registry@, verb@) is Some && !workspace_open ==> (r matches Err(e) && e@
            == error_text("no workspace open. Use rust_session open PATH first."@, None)),
        latest_named(registry@, verb@) is Some && workspace_open ==> match mutation_verb_named(
            verb@,
        ) {
            Some(m) => r == Ok::<MutationVerb, String>(m),
            None => (r matches Err(e) && e@ == error_text(
                "verb '"@ + verb@ + "' is not a mutation."@,
                None,
            )),
        },
{
    if registry.lookup(verb).is_none() {
        return Err(unknown_verb(verb, suggestion));
    }
    if !workspace_open {
        return Err(format_error("no workspace open. Use rust_session open PATH first.", None));
    }
    if equals(verb, "rename") {
        Ok(MutationVerb::Rename)
    } else if equals(verb, "extract") {
        Ok(MutationVerb::Extract)
    } else if equals(verb, "inline") {
        Ok(MutationVerb::Inline)
    } else if equals(verb, "generate") {
        Ok(MutationVerb::Generate)
    } else if equals(verb, "import") {
        Ok(MutationVerb::Import)
    } else {
        let mut m = String::new();
        push_str(&mut m, "verb '");
        push_str(&mut m, verb);
        push_str(&mut m, "' is not a mutation.");
        Err(format_error(m.as_str(), None))
    }
}

/// What a query verb needs as its first positional argument, for the error answered when it
/// is missing; `diagnose`, `map` and `unused` need none.
pub open spec fn needed_argument(verb: QueryVerb) -> Option<Seq<char>> {
    match verb {
        QueryVerb::Find => Some("find requires a search query."@),
        QueryVerb::Def => Some("def requires a symbol name."@),
        QueryVerb::Refs => Some("refs requires a symbol name."@),
        QueryVerb::Symbols => Some("symbols requires a file path."@),
        QueryVerb::Inspect => Some("inspect requires a symbol name."@),
        QueryVerb::Callers => Some("callers requires a symbol name."@),
        QueryVerb::Callees => Some("callees requires a symbol name."@),
        QueryVerb::Impl => Some("impl requires a symbol name."@),
        _ => None,
    }
}

/// The error a query answers when its first positional argument is missing, if it needs one.
pub fn query_argument_error(verb: QueryVerb, positionals: &[String]) -> (r: Option<String>)
    ensures
        match r {
            Some(e) => positionals@.len() == 0 && (needed_argument(verb) matches Some(m) && e@
                == error_text(m, None)),
            None => positionals@.len() > 0 || needed_argument(verb) is None,
        },
{
    if positionals.len() > 0 {
        return None;
    }
    let message = match verb {
        QueryVerb::Find => "find requires a search query.",
        QueryVerb::Def => "def requires a symbol name.",
        QueryVerb::Refs => "refs requires a symbol name.",
        QueryVerb::Symbols => "symbols requires a file path.",
        QueryVerb::Inspect => "inspect requires a symbol name.",
        QueryVerb::Callers => "callers requires a symbol name.",
        QueryVerb::Callees => "callees requires a symbol name.",
        QueryVerb::Impl => "impl requires a symbol name.",
        _ => {
            return None;
        },
    };
    Some(format_error(message, None))
}

} // verus!
