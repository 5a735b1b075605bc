//! Selector parsing and filtering for symbol resolution.
use crate::lsp::types::{SymbolInformation, SymbolKind};
use crate::text::{
    first_index_of, is_prefix_of,
    contains, contains_text, equals, parse_u32, texts, parse_u32_text, split_once, split_once_text,
    strip_prefix, strip_prefix_text, to_lowercase, lower_text, ascii_lower,
};
use vstd::utf8::is_ascii_chars;
use vstd::prelude::*;

verus! {

/// What a selector restricts.
#[derive(Debug, Clone, Copy, PartialEq, Eq, Structural)]
pub enum SelectorType {
    File,
    Struct,
    Trait,
    Kind,
    Module,
    Line,
    Lines,
}

/// A selector such as `@file:main.rs`: its type and its value.
#[derive(Debug, Clone, PartialEq)]
pub struct ParsedSelector {
    pub selector_type: SelectorType,
    pub value: String,
}

/// The selector type a selector name stands for.
pub open spec fn selector_type_named(name: Seq<char>) -> Option<SelectorType> {
    if name == "file"@ {
        Some(SelectorType::File)
    } else if name == "struct"@ {
        Some(SelectorType::Struct)
    } else if name == "trait"@ {
        Some(SelectorType::Trait)
    } else if name == "kind"@ {
        Some(SelectorType::Kind)
    } else if name == "module"@ || name == "mod"@ {
        Some(SelectorType::Module)
    } else if name == "line"@ {
        Some(SelectorType::Line)
    } else if name == "lines"@ {
        Some(SelectorType::Lines)
    } else {
        None
    }
}

/// The type and value of a selector string `@type:value`; the value is everything after the
/// first colon.
pub open spec fn selector_parts(selector: Seq<char>) -> Option<(SelectorType, Seq<char>)> {
    match strip_prefix_text(selector, "@"@) {
        Some(s) => match split_once_text(s, ':') {
            Some((name, value)) => match selector_type_named(name) {
                Some(t) => Some((t, value)),
                None => None,
            },
            None => None,
        },
        None => None,
    }
}

fn selector_type_from_name(name: &str) -> (r: Option<SelectorType>)
    ensures
        r == selector_type_named(name@),
{
    if equals(name, "file") {
        Some(SelectorType::File)
    } else if equals(name, "struct") {
        Some(SelectorType::Struct)
    } else if equals(name, "trait") {
        Some(SelectorType::Trait)
    } else if equals(name, "kind") {
        Some(SelectorType::Kind)
    } else if equals(name, "module") || equals(name, "mod") {
        Some(SelectorType::Module)
    } else if equals(name, "line") {
        Some(SelectorType::Line)
    } else if equals(name, "lines") {
        Some(SelectorType::Lines)
    } else {
        None
    }
}

/// Parses a selector string like `@file:main.rs` or `@kind:function`.
pub fn parse_selector(selector: &str) -> (r: Option<ParsedSelector>)
    ensures
        r matches Some(p) ==> selector_parts(selector@) == Some((p.selector_type, p.value@)),
        r is None ==> selector_parts(selector@) is None,
{
    let s = match strip_prefix(selector, "@") {
        Some(s) => s,
        None => return None,
    };
    let (name, value) = match split_once(s.as_str(), ':') {
        Some(parts) => parts,
        None => return None,
    };
    match selector_type_from_name(name.as_str()) {
        Some(t) => Some(ParsedSelector { selector_type: t, value }),
        None => None,
    }
}

/// The symbol kind a lower-case kind name stands for.
pub open spec fn kind_named(name: Seq<char>) -> Option<SymbolKind> {
    if name == "function"@ || name == "fn"@ {
        Some(SymbolKind::Function)
    } else if name == "method"@ {
        Some(SymbolKind::Method)
    } else if name == "struct"@ {
        Some(SymbolKind::Struct)
    } else if name == "enum"@ {
        Some(SymbolKind::Enum)
    } else if name == "interface"@ || name == "trait"@ {
        Some(SymbolKind::Interface)
    } else if name == "variable"@ || name == "var"@ {
        Some(SymbolKind::Variable)
    } else if name == "constant"@ || name == "const"@ {
        Some(SymbolKind::Constant)
    } else if name == "property"@ {
        Some(SymbolKind::Property)
    } else if name == "module"@ || name == "mod"@ {
        Some(SymbolKind::Module)
    } else if name == "namespace"@ {
        Some(SymbolKind::Namespace)
    } else if name == "class"@ {
        Some(SymbolKind::Class)
    } else if name == "field"@ {
        Some(SymbolKind::Field)
    } else if name == "constructor"@ {
        Some(SymbolKind::Constructor)
    } else if name == "type_parameter"@ || name == "typeparameter"@ {
        Some(SymbolKind::TypeParameter)
    } else if name == "file"@ {
        Some(SymbolKind::File)
    } else if name == "package"@ {
        Some(SymbolKind::Package)
    } else if name == "string"@ {
        Some(SymbolKind::String)
    } else if name == "number"@ {
        Some(SymbolKind::Number)
    } else if name == "boolean"@ || name == "bool"@ {
        Some(SymbolKind::Boolean)
    } else if name == "array"@ {
        Some(SymbolKind::Array)
    } else if name == "object"@ {
        Some(SymbolKind::Object)
    } else if name == "key"@ {
        Some(SymbolKind::Key)
    } else if name == "null"@ {
        Some(SymbolKind::Null)
    } else if name == "enum_member"@ || name == "enummember"@ {
        Some(SymbolKind::EnumMember)
    } else if name == "event"@ {
        Some(SymbolKind::Event)
    } else if name == "operator"@ {
        Some(SymbolKind::Operator)
    } else {
        None
    }
}

/// The symbol kind named by an already lower-cased kind name.
pub fn symbol_kind_from_lowercase(name: &str) -> (r: Option<SymbolKind>)
    ensures
        r == kind_named(name@),
{
    if equals(name, "function") || equals(name, "fn") {
        Some(SymbolKind::Function)
    } else if equals(name, "method") {
        Some(SymbolKind::Method)
    } else if equals(name, "struct") {
        Some(SymbolKind::Struct)
    } else if equals(name, "enum") {
        Some(SymbolKind::Enum)
    } else if equals(name, "interface") || equals(name, "trait") {
        Some(SymbolKind::Interface)
    } else if equals(name, "variable") || equals(name, "var") {
        Some(SymbolKind::Variable)
    } else if equals(name, "constant") || equals(name, "const") {
        Some(SymbolKind::Constant)
    } else if equals(name, "property") {
        Some(SymbolKind::Property)
    } else if equals(name, "module") || equals(name, "mod") {
        Some(SymbolKind::Module)
    } else if equals(name, "namespace") {
        Some(SymbolKind::Namespace)
    } else if equals(name, "class") {
        Some(SymbolKind::Class)
    } else if equals(name, "field") {
        Some(SymbolKind::Field)
    } else if equals(name, "constructor") {
        Some(SymbolKind::Constructor)
    } else if equals(name, "type_parameter") || equals(name, "typeparameter") {
        Some(SymbolKind::TypeParameter)
    } else if equals(name, "file") {
        Some(SymbolKind::File)
    } else if equals(name, "package") {
        Some(SymbolKind::Package)
    } else if equals(name, "string") {
        Some(SymbolKind::String)
    } else if equals(name, "number") {
        Some(SymbolKind::Number)
    } else if equals(name, "boolean") || equals(name, "bool") {
        Some(SymbolKind::Boolean)
    } else if equals(name, "array") {
        Some(SymbolKind::Array)
    } else if equals(name, "object") {
        Some(SymbolKind::Object)
    } else if equals(name, "key") {
        Some(SymbolKind::Key)
    } else if equals(name, "null") {
        Some(SymbolKind::Null)
    } else if equals(name, "enum_member") || equals(name, "enummember") {
        Some(SymbolKind::EnumMember)
    } else if equals(name, "event") {
        Some(SymbolKind::Event)
    } else if equals(name, "operator") {
        Some(SymbolKind::Operator)
    } else {
        None
    }
}

/// The symbol kind a kind name stands for, in any letter case.
pub open spec fn kind_from_text(s: Seq<char>) -> Option<SymbolKind> {
    kind_named(lower_text(s))
}

/// Converts a kind name such as `function` or `Trait` to a symbol kind.
pub fn symbol_kind_from_string(s: &str) -> (r: Option<SymbolKind>)
    ensures
        r == kind_from_text(s@),
{
    let lower = to_lowercase(s);
    symbol_kind_from_lowercase(lower.as_str())
}

/// Parses a line range value like `15-30` into its first and last line; the first may not
/// exceed the last.
pub open spec fn line_range_of(value: Seq<char>) -> Option<(u32, u32)> {
    match split_once_text(value, '-') {
        Some((a, b)) => match (parse_u32_text(a), parse_u32_text(b)) {
            (Some(start), Some(end)) => if start <= end {
                Some((start, end))
            } else {
                None
            },
            _ => None,
        },
        None => None,
    }
}

/// Parses a line range value like `15-30` into (start, end).
pub fn parse_line_range(value: &str) -> (r: Option<(u32, u32)>)
    ensures
        r == line_range_of(value@),
{
    let (start_str, end_str) = match split_once(value, '-') {
        Some(parts) => parts,
        None => return None,
    };
    let start = match parse_u32(start_str.as_str()) {
        Some(n) => n,
        None => return None,
    };
    let end = match parse_u32(end_str.as_str()) {
        Some(n) => n,
        None => return None,
    };
    if start <= end {
        Some((start, end))
    } else {
        None
    }
}

/// The container is present and equal to `value`.
pub open spec fn container_is(container: Option<String>, value: Seq<char>) -> bool {
    match container {
        Some(c) => c@ == value,
        None => false,
    }
}

/// Whether a symbol satisfies one selector.
pub open spec fn selector_matches(sym: SymbolInformation, sel: ParsedSelector) -> bool {
    let v = sel.value@;
    match sel.selector_type {
        SelectorType::File => contains_text(sym.location.uri@, v),
        SelectorType::Struct => container_is(sym.container_name, v) || (sym.name@ == v
            && sym.kind == SymbolKind::Struct),
        SelectorType::Trait => container_is(sym.container_name, v) || (sym.name@ == v
            && sym.kind == SymbolKind::Interface),
        SelectorType::Kind => kind_from_text(v) == Some(sym.kind),
        SelectorType::Module => (match sym.container_name {
            Some(c) => contains_text(c@, v),
            None => false,
        }) || contains_text(sym.location.uri@, v),
        SelectorType::Line => match parse_u32_text(v) {
            Some(line) => sym.location.range.start.line <= line && line
                <= sym.location.range.end.line,
            None => false,
        },
        SelectorType::Lines => true,
    }
}

/// Whether a symbol satisfies every selector.
pub open spec fn all_selectors_match(sym: SymbolInformation, sels: Seq<ParsedSelector>) -> bool {
    forall|i: int| 0 <= i < sels.len() ==> selector_matches(sym, #[trigger] sels[i])
}

/// The symbols that satisfy every selector, in their order.
pub open spec fn filtered_symbols(syms: Seq<SymbolInformation>, sels: Seq<ParsedSelector>) -> Seq<
    SymbolInformation,
>
    decreases syms.len(),
{
    if syms.len() == 0 {
        seq![]
    } else if all_selectors_match(syms.last(), sels) {
        filtered_symbols(syms.drop_last(), sels).push(syms.last())
    } else {
        filtered_symbols(syms.drop_last(), sels)
    }
}

fn container_equals(container: &Option<String>, value: &String) -> (r: bool)
    ensures
        r == container_is(*container, value@),
{
    match container {
        Some(c) => *c == *value,
        None => false,
    }
}

fn matches_selector(sym: &SymbolInformation, sel: &ParsedSelector) -> (r: bool)
    ensures
        r == selector_matches(*sym, *sel),
{
    match sel.selector_type {
        SelectorType::File => contains(sym.location.uri.as_str(), sel.value.as_str()),
        SelectorType::Struct => {
            container_equals(&sym.container_name, &sel.value) || (sym.name == sel.value
                && sym.kind == SymbolKind::Struct)
        },
        SelectorType::Trait => {
            container_equals(&sym.container_name, &sel.value) || (sym.name == sel.value
                && sym.kind == SymbolKind::Interface)
        },
        SelectorType::Kind => match symbol_kind_from_string(sel.value.as_str()) {
            Some(k) => sym.kind == k,
            None => false,
        },
        SelectorType::Module => {
            let in_container = match &sym.container_name {
                Some(c) => contains(c.as_str(), sel.value.as_str()),
                None => false,
            };
            in_container || contains(sym.location.uri.as_str(), sel.value.as_str())
        },
        SelectorType::Line => match parse_u32(sel.value.as_str()) {
            Some(line) => sym.location.range.start.line <= line && line
                <= sym.location.range.end.line,
            None => false,
        },
        SelectorType::Lines => true,
    }
}

fn matches_all(sym: &SymbolInformation, selectors: &[ParsedSelector]) -> (r: bool)
    ensures
        r == all_selectors_match(*sym, selectors@),
{
    let mut i: usize = 0;
    while i < selectors.len()
        invariant
            i <= selectors@.len(),
            forall|j: int| 0 <= j < i ==> selector_matches(*sym, #[trigger] selectors@[j]),
        decreases selectors@.len() - i,
    {
        if !matches_selector(sym, &selectors[i]) {
            return false;
        }
        i = i + 1;
    }
    true
}

/// Filters symbols by a list of parsed selectors. All selectors must match (AND logic).
pub fn filter_by_selectors<'a>(
    symbols: &'a [SymbolInformation],
    selectors: &[ParsedSelector],
) -> (r: Vec<&'a SymbolInformation>)
    ensures
        r@.map_values(|s: &SymbolInformation| *s) == filtered_symbols(symbols@, selectors@),
{
    let mut r: Vec<&'a SymbolInformation> = Vec::new();
    let mut i: usize = 0;
    while i < symbols.len()
        invariant
            i <= symbols@.len(),
            r@.map_values(|s: &SymbolInformation| *s) == filtered_symbols(
                symbols@.take(i as int),
                selectors@,
            ),
        decreases symbols@.len() - i,
    {
        let sym = &symbols[i];
        assert(symbols@.take(i + 1).drop_last() =~= symbols@.take(i as int));
        assert(symbols@.take(i + 1).last() == *sym);
        if matches_all(sym, selectors) {
            let ghost prev = r@;
            r.push(sym);
            assert(r@.map_values(|s: &SymbolInformation| *s) =~= prev.map_values(
                |s: &SymbolInformation| *s,
            ).push(*sym));
        }
        i = i + 1;
    }
    assert(symbols@.take(symbols@.len() as int) =~= symbols@);
    r
}


/// The value of the first selector string of type `t`; strings that are no selector are
/// skipped.
pub open spec fn first_selector_value(selectors: Seq<Seq<char>>, t: SelectorType) -> Option<
    Seq<char>,
>
    decreases selectors.len(),
{
    if selectors.len() == 0 {
        None
    } else {
        match selector_parts(selectors[0]) {
            Some((ty, v)) => if ty == t {
                Some(v)
            } else {
                first_selector_value(selectors.drop_first(), t)
            },
            None => first_selector_value(selectors.drop_first(), t),
        }
    }
}

/// The value of the first selector of type `t` among selector strings.
pub fn selector_value(selectors: &[String], t: SelectorType) -> (r: Option<String>)
    ensures
        match r {
            Some(v) => first_selector_value(texts(selectors@), t) == Some(v@),
            None => first_selector_value(texts(selectors@), t) is None,
        },
{
    let ghost ts = texts(selectors@);
    let mut i: usize = 0;
    assert(ts.skip(0) =~= ts);
    while i < selectors.len()
        invariant
            i <= selectors@.len(),
            ts == texts(selectors@),
            first_selector_value(ts, t) == first_selector_value(ts.skip(i as int), t),
        decreases selectors@.len() - i,
    {
        assert(ts.skip(i as int)[0] == selectors@[i as int]@);
        assert(ts.skip(i as int).drop_first() =~= ts.skip(i + 1));
        if let Some(p) = parse_selector(selectors[i].as_str()) {
            if p.selector_type == t {
                return Some(p.value);
            }
        }
        i = i + 1;
    }
    None
}

/// The selector strings that parse, parsed, in order.
pub open spec fn parsed_selectors(selectors: Seq<Seq<char>>) -> Seq<(SelectorType, Seq<char>)>
    decreases selectors.len(),
{
    if selectors.len() == 0 {
        seq![]
    } else {
        let rest = parsed_selectors(selectors.drop_last());
        match selector_parts(selectors.last()) {
            Some(p) => rest.push(p),
            None => rest,
        }
    }
}

/// Types and values of parsed selectors.
pub open spec fn selector_pairs(sels: Seq<ParsedSelector>) -> Seq<(SelectorType, Seq<char>)> {
    sels.map_values(|p: ParsedSelector| (p.selector_type, p.value@))
}

/// Parses every selector string, dropping those that are no selector.
pub fn parse_selectors(selectors: &[String]) -> (r: Vec<ParsedSelector>)
    ensures
        selector_pairs(r@) == parsed_selectors(texts(selectors@)),
{
    let ghost ts = texts(selectors@);
    let mut r: Vec<ParsedSelector> = Vec::new();
    let mut i: usize = 0;
    while i < selectors.len()
        invariant
            i <= selectors@.len(),
            ts == texts(selectors@),
            selector_pairs(r@) == parsed_selectors(ts.take(i as int)),
        decreases selectors@.len() - i,
    {
        assert(ts.take(i + 1).drop_last() =~= ts.take(i as int));
        assert(ts.take(i + 1).last() == selectors@[i as int]@);
        if let Some(p) = parse_selector(selectors[i].as_str()) {
            let ghost prev = selector_pairs(r@);
            let ghost pp = (p.selector_type, p.value@);
            r.push(p);
            assert(selector_pairs(r@) =~= prev.push(pp));
        }
        i = i + 1;
    }
    assert(ts.take(selectors@.len() as int) =~= ts);
    r
}

// ---------------------------------------------------------------------------
// Laws
// ---------------------------------------------------------------------------

/// Filtering keeps exactly the symbols that satisfy every selector, in their order.
pub proof fn law_filter_keeps_matching(syms: Seq<SymbolInformation>, sels: Seq<ParsedSelector>)
    ensures
        filtered_symbols(syms, sels) == syms.filter(
            |s: SymbolInformation| all_selectors_match(s, sels),
        ),
    decreases syms.len(),
{
    reveal(Seq::filter);
    if syms.len() > 0 {
        law_filter_keeps_matching(syms.drop_last(), sels);
    }
}

/// Without selectors, filtering keeps every symbol.
pub proof fn law_filter_without_selectors(syms: Seq<SymbolInformation>)
    ensures
        filtered_symbols(syms, seq![]) == syms,
    decreases syms.len(),
{
    if syms.len() > 0 {
        law_filter_without_selectors(syms.drop_last());
        assert(all_selectors_match(syms.last(), seq![]));
        assert(syms.drop_last().push(syms.last()) =~= syms);
    }
}

/// A symbol satisfies the selectors `a` followed by `b` exactly when it satisfies both lists.
pub proof fn law_selectors_conjoin(x: SymbolInformation, a: Seq<ParsedSelector>, b: Seq<ParsedSelector>)
    ensures
        all_selectors_match(x, a + b) == (all_selectors_match(x, a) && all_selectors_match(x, b)),
{
    if all_selectors_match(x, a) && all_selectors_match(x, b) {
        assert forall|i: int| 0 <= i < (a + b).len() implies selector_matches(
            x,
            #[trigger] (a + b)[i],
        ) by {
            if i >= a.len() {
                assert((a + b)[i] == b[i - a.len()]);
            }
        }
    }
    if all_selectors_match(x, a + b) {
        assert forall|i: int| 0 <= i < a.len() implies selector_matches(x, #[trigger] a[i]) by {
            assert((a + b)[i] == a[i]);
        }
        assert forall|i: int| 0 <= i < b.len() implies selector_matches(x, #[trigger] b[i]) by {
            assert((a + b)[i + a.len()] == b[i]);
        }
    }
}

/// Selectors combine by AND: filtering by `a` and then by `b` is filtering by both.
pub proof fn law_filter_composes(
    syms: Seq<SymbolInformation>,
    a: Seq<ParsedSelector>,
    b: Seq<ParsedSelector>,
)
    ensures
        filtered_symbols(filtered_symbols(syms, a), b) == filtered_symbols(syms, a + b),
    decreases syms.len(),
{
    if syms.len() > 0 {
        let x = syms.last();
        law_filter_composes(syms.drop_last(), a, b);
        law_selectors_conjoin(x, a, b);
        if all_selectors_match(x, a) {
            assert(filtered_symbols(syms, a).drop_last() == filtered_symbols(syms.drop_last(), a));
        }
    }
}

proof fn lemma_first_index_after(name: Seq<char>, c: char, rest: Seq<char>)
    requires
        !name.contains(c),
    ensures
        first_index_of(name + seq![c] + rest, c) == Some(name.len() as int),
    decreases name.len(),
{
    if name.len() > 0 {
        assert(name[0] != c) by {
            assert(name.contains(name[0]));
        }
        assert((name + seq![c] + rest).drop_first() =~= name.drop_first() + seq![c] + rest);
        assert(!name.drop_first().contains(c)) by {
            if name.drop_first().contains(c) {
                let k = choose|k: int| 0 <= k < name.drop_first().len() && name.drop_first()[k] == c;
                assert(name[k + 1] == c);
            }
        }
        lemma_first_index_after(name.drop_first(), c, rest);
    }
}

proof fn lemma_type_names_have_no_colon(name: Seq<char>)
    requires
        selector_type_named(name) is Some,
    ensures
        !name.contains(':'),
{
    reveal_strlit("file");
    reveal_strlit("struct");
    reveal_strlit("trait");
    reveal_strlit("kind");
    reveal_strlit("module");
    reveal_strlit("mod");
    reveal_strlit("line");
    reveal_strlit("lines");
}

/// A selector written as `@<type>:<value>` parses to that type and value; the value may itself
/// hold colons.
pub proof fn law_selector_round_trip(name: Seq<char>, value: Seq<char>)
    requires
        selector_type_named(name) is Some,
    ensures
        selector_parts("@"@ + name + ":"@ + value) == Some(
            (selector_type_named(name).unwrap(), value),
        ),
{
    reveal_strlit("@");
    reveal_strlit(":");
    let full = "@"@ + name + ":"@ + value;
    let rest = name + seq![':'] + value;
    assert(full =~= seq!['@'] + rest);
    assert(is_prefix_of("@"@, full)) by {
        assert(full.take(1) =~= "@"@);
    }
    assert(full.skip(1) =~= rest);
    lemma_type_names_have_no_colon(name);
    lemma_first_index_after(name, ':', value);
    assert(rest.take(name.len() as int) =~= name);
    assert(rest.skip(name.len() as int + 1) =~= value);
}

proof fn lemma_one_selector(sym: SymbolInformation, sel: ParsedSelector)
    ensures
        all_selectors_match(sym, seq![sel]) == selector_matches(sym, sel),
        filtered_symbols(seq![sym], seq![sel]) == if selector_matches(sym, sel) {
            seq![sym]
        } else {
            Seq::<SymbolInformation>::empty()
        },
{
    reveal_with_fuel(filtered_symbols, 2);
    assert(seq![sel][0] == sel);
    assert(seq![sym].drop_last() =~= Seq::<SymbolInformation>::empty());
    assert(seq![sym].last() == sym);
    assert(Seq::<SymbolInformation>::empty().push(sym) =~= seq![sym]);
}

/// A `@module:` selector keeps a symbol exactly when the symbol's file URI or its container
/// name contains the selector's value; among many symbols it keeps each whose file URI
/// contains the value, whatever its container.
pub proof fn law_module_selector_keeps(syms: Seq<SymbolInformation>, sym: SymbolInformation, sel: ParsedSelector)
    requires
        sel.selector_type == SelectorType::Module,
    ensures
        filtered_symbols(seq![sym], seq![sel]) == if contains_text(sym.location.uri@, sel.value@) || (
        sym.container_name is Some && contains_text(sym.container_name.unwrap()@, sel.value@)) {
            seq![sym]
        } else {
            Seq::<SymbolInformation>::empty()
        },
        forall|i: int|
            0 <= i < syms.len() && contains_text((#[trigger] syms[i]).location.uri@, sel.value@)
                ==> filtered_symbols(syms, seq![sel]).contains(syms[i]),
{
    lemma_one_selector(sym, sel);
    law_filter_keeps_matching(syms, seq![sel]);
    let pred = |s: SymbolInformation| all_selectors_match(s, seq![sel]);
    assert forall|i: int|
        0 <= i < syms.len() && contains_text((#[trigger] syms[i]).location.uri@, sel.value@)
            implies filtered_symbols(syms, seq![sel]).contains(syms[i]) by {
        lemma_one_selector(syms[i], sel);
        syms.lemma_filter_contains(pred, i);
    }
}

/// A `@file:` selector keeps a symbol exactly when its file URI contains the value.
pub proof fn law_file_selector_keeps(sym: SymbolInformation, sel: ParsedSelector)
    requires
        sel.selector_type == SelectorType::File,
    ensures
        filtered_symbols(seq![sym], seq![sel]) == if contains_text(sym.location.uri@, sel.value@) {
            seq![sym]
        } else {
            Seq::<SymbolInformation>::empty()
        },
{
    lemma_one_selector(sym, sel);
}

/// A `@struct:` selector keeps a symbol exactly when its container is that struct or the
/// symbol is that struct itself.
pub proof fn law_struct_selector_keeps(sym: SymbolInformation, sel: ParsedSelector)
    requires
        sel.selector_type == SelectorType::Struct,
    ensures
        filtered_symbols(seq![sym], seq![sel]) == if (sym.container_name is Some
            && sym.container_name.unwrap()@ == sel.value@) || (
        sym.name@ == sel.value@ && sym.kind == SymbolKind::Struct) {
            seq![sym]
        } else {
            Seq::<SymbolInformation>::empty()
        },
{
    lemma_one_selector(sym, sel);
}

/// A `@trait:` selector keeps a symbol exactly when its container is that trait or the symbol
/// is that trait itself.
pub proof fn law_trait_selector_keeps(sym: SymbolInformation, sel: ParsedSelector)
    requires
        sel.selector_type == SelectorType::Trait,
    ensures
        filtered_symbols(seq![sym], seq![sel]) == if (sym.container_name is Some
            && sym.container_name.unwrap()@ == sel.value@) || (sym.name@ == sel.value@ && sym.kind
            == SymbolKind::Interface) {
            seq![sym]
        } else {
            Seq::<SymbolInformation>::empty()
        },
{
    lemma_one_selector(sym, sel);
}

/// A `@line:N` selector keeps a symbol exactly when N is a number within the symbol's range
/// of lines.
pub proof fn law_line_selector_keeps(sym: SymbolInformation, sel: ParsedSelector)
    requires
        sel.selector_type == SelectorType::Line,
    ensures
        filtered_symbols(seq![sym], seq![sel]) == if (parse_u32_text(sel.value@) matches Some(n) && sym.location.range.start.line
            <= n <= sym.location.range.end.line) {
            seq![sym]
        } else {
            Seq::<SymbolInformation>::empty()
        },
{
    lemma_one_selector(sym, sel);
}

/// A `@kind:` selector keeps a symbol exactly when the kind name, in any letter case, names
/// the symbol's kind; for an ASCII name that is the kind its lower case names.
pub proof fn law_kind_selector_keeps(sym: SymbolInformation, sel: ParsedSelector)
    requires
        sel.selector_type == SelectorType::Kind,
        is_ascii_chars(sel.value@),
    ensures
        filtered_symbols(seq![sym], seq![sel]) == if kind_named(
            sel.value@.map_values(|c: char| ascii_lower(c)),
        ) == Some(sym.kind) {
            seq![sym]
        } else {
            Seq::<SymbolInformation>::empty()
        },
{
    lemma_one_selector(sym, sel);
}

/// A `@lines:` selector keeps every symbol.
pub proof fn law_lines_selector_keeps(sym: SymbolInformation, sel: ParsedSelector)
    requires
        sel.selector_type == SelectorType::Lines,
    ensures
        filtered_symbols(seq![sym], seq![sel]) == seq![sym],
{
    lemma_one_selector(sym, sel);
}

/// A line range's first line never exceeds its last.
pub proof fn law_line_range_ordered(value: Seq<char>)
    ensures
        line_range_of(value) matches Some((start, end)) ==> start <= end,
{
}

} // verus!
