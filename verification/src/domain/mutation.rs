//! The parts of the mutation verbs that compute on plain values.
use crate::domain::format::{
    code_action_choices_text, error_text, format_code_action_subset, format_error,
    format_mutation_result, mutation_lines, relative_path_text,
};
use crate::domain::model::RustModel;
use crate::domain::query::{uri_in_workspace, workspace_uri};
use crate::lsp::types::CodeAction;
use crate::lsp::workspace_edit::{edit_count_sum, ApplyResult};
use crate::resolver::selectors::{
    first_selector_value, line_range_of, parse_line_range, selector_value, SelectorType,
};
use crate::text::{
    chars_of, contains, contains_text, decimal, ends_with, eq_ignore_ascii_case,
    is_prefix_of as text_prefix, is_prefix_of, is_suffix_of, join_lines, join_newline,
    last_index_of, lemma_last_index_of, lemma_trim_is_piece, lines, lines_of, parse_u32,
    parse_u32_text, push_decimal, push_str, rfind_char, same_ignoring_ascii_case, split, split_all,
    starts_with, string_of_chars, strip_prefix, strip_prefix_text, texts, to_lowercase, trim,
    trim_start, trim_start_char, trim_start_matches, trim_start_text, trim_text, lower_text,
};
use vstd::prelude::*;
use vstd::utf8::*;

verus! {

/// The traits `generate` adds with a derive attribute, in canonical spelling.
pub open spec fn derivable_traits() -> Seq<Seq<char>> {
    seq![
        "Debug"@,
        "Clone"@,
        "Copy"@,
        "PartialEq"@,
        "Eq"@,
        "Hash"@,
        "PartialOrd"@,
        "Ord"@,
        "Default"@,
    ]
}

fn derivable_trait_list() -> (r: Vec<&'static str>)
    ensures
        r@.map_values(|t: &str| t@) == derivable_traits(),
{
    let mut r: Vec<&'static str> = Vec::new();
    r.push("Debug");
    r.push("Clone");
    r.push("Copy");
    r.push("PartialEq");
    r.push("Eq");
    r.push("Hash");
    r.push("PartialOrd");
    r.push("Ord");
    r.push("Default");
    assert(r@.map_values(|t: &str| t@) =~= derivable_traits());
    r
}

/// Index of the first derivable trait equal to `name` up to ASCII case.
pub open spec fn derivable_index(name: Seq<char>) -> Option<int> {
    if exists|i: int|
        0 <= i < derivable_traits().len() && same_ignoring_ascii_case(
            #[trigger] derivable_traits()[i],
            name,
        ) {
        Some(
            choose|i: int|
                0 <= i < derivable_traits().len() && same_ignoring_ascii_case(
                    #[trigger] derivable_traits()[i],
                    name,
                ) && forall|j: int|
                    0 <= j < i ==> !same_ignoring_ascii_case(#[trigger] derivable_traits()[j], name),
        )
    } else {
        None
    }
}

fn find_derivable(name: &str) -> (r: Option<&'static str>)
    ensures
        match r {
            Some(t) => exists|i: int|
                0 <= i < derivable_traits().len() && derivable_traits()[i] == t@
                    && same_ignoring_ascii_case(#[trigger] derivable_traits()[i], name@)
                    && forall|j: int|
                    0 <= j < i ==> !same_ignoring_ascii_case(
                        #[trigger] derivable_traits()[j],
                        name@,
                    ),
            None => forall|i: int|
                0 <= i < derivable_traits().len() ==> !same_ignoring_ascii_case(
                    #[trigger] derivable_traits()[i],
                    name@,
                ),
        },
{
    let list = derivable_trait_list();
    let ghost names = list@.map_values(|t: &str| t@);
    let mut i: usize = 0;
    while i < list.len()
        invariant
            i <= list@.len(),
            names == list@.map_values(|t: &str| t@),
            names == derivable_traits(),
            forall|j: int| 0 <= j < i ==> !same_ignoring_ascii_case(#[trigger] names[j], name@),
        decreases list@.len() - i,
    {
        assert(names[i as int] == list@[i as int]@);
        if eq_ignore_ascii_case(list[i], name) {
            return Some(list[i]);
        }
        i = i + 1;
    }
    None
}

/// `trait_name` is one of the derivable traits, up to ASCII case.
pub open spec fn is_derivable_name(trait_name: Seq<char>) -> bool {
    exists|i: int|
        0 <= i < derivable_traits().len() && same_ignoring_ascii_case(
            #[trigger] derivable_traits()[i],
            trait_name,
        )
}

/// Whether `generate` can add `trait_name` with a derive attribute.
pub fn is_derivable(trait_name: &str) -> (r: bool)
    ensures
        r == is_derivable_name(trait_name@),
{
    find_derivable(trait_name).is_some()
}

/// The canonical spelling of a derivable trait name (`debug` gives `Debug`); other names are
/// kept as they are.
pub open spec fn canonical_name(trait_name: Seq<char>) -> Seq<char> {
    match derivable_index(trait_name) {
        Some(i) => derivable_traits()[i],
        None => trait_name,
    }
}

/// Canonical form of a derivable trait name (e.g. "debug" → "Debug").
pub fn canonical_trait_name(trait_name: &str) -> (r: String)
    ensures
        r@ == canonical_name(trait_name@),
{
    match find_derivable(trait_name) {
        Some(t) => {
            proof {
                let i = choose|i: int|
                    0 <= i < derivable_traits().len() && derivable_traits()[i] == t@
                        && same_ignoring_ascii_case(#[trigger] derivable_traits()[i], trait_name@)
                        && forall|j: int|
                        0 <= j < i ==> !same_ignoring_ascii_case(
                            #[trigger] derivable_traits()[j],
                            trait_name@,
                        );
                let k = derivable_index(trait_name@).unwrap();
                if k < i {
                    assert(!same_ignoring_ascii_case(derivable_traits()[k], trait_name@));
                } else if i < k {
                    assert(!same_ignoring_ascii_case(derivable_traits()[i], trait_name@));
                }
            }
            t.to_owned()
        },
        None => trait_name.to_owned(),
    }
}

/// A trimmed line that is a whole derive attribute: `#[derive(` ... `)]`.
pub open spec fn is_derive_line(t: Seq<char>) -> bool {
    is_prefix_of("#[derive("@, t) && is_suffix_of(")]"@, t)
}

/// The list inside a derive attribute.
pub open spec fn derive_inner(t: Seq<char>) -> Seq<char> {
    t.subrange("#[derive("@.len() as int, t.len() - ")]"@.len())
}

/// A trimmed line that the upward scan passes over: another attribute or a doc comment.
pub open spec fn is_passable_line(t: Seq<char>) -> bool {
    is_prefix_of("#["@, t) || is_prefix_of("///"@, t) || is_prefix_of("//!"@, t)
}

/// Scanning up from line `idx` past attributes and doc comments: the first derive attribute
/// met, with its line and its inner list.
pub open spec fn derive_scan(lines: Seq<Seq<char>>, idx: int) -> (Option<int>, Option<Seq<char>>)
    decreases idx,
{
    let t = trim_text(lines[idx]);
    if is_derive_line(t) {
        (Some(idx), Some(derive_inner(t)))
    } else if is_passable_line(t) && idx > 0 {
        derive_scan(lines, idx - 1)
    } else {
        (None, None)
    }
}

/// The derive attribute directly above `struct_line`, past attributes and doc comments.
pub open spec fn derive_above(lines: Seq<Seq<char>>, struct_line: int) -> (
    Option<int>,
    Option<Seq<char>>,
) {
    if struct_line == 0 {
        (None, None)
    } else {
        derive_scan(lines, struct_line - 1)
    }
}

/// The texts of borrowed lines.
pub open spec fn str_texts(lines: Seq<&str>) -> Seq<Seq<char>> {
    lines.map_values(|l: &str| l@)
}

/// Finds a `#[derive(...)]` attribute on the line(s) immediately above `struct_line`.
/// Returns (line_index, inner_derive_content) if found.
pub fn find_derive_above(lines: &[&str], struct_line: usize) -> (r: (Option<usize>, Option<String>))
    requires
        struct_line <= lines@.len(),
    ensures
        ({
            let (idx, inner) = derive_above(str_texts(lines@), struct_line as int);
            &&& r.0 == match idx {
                Some(i) => Some(i as usize),
                None => None::<usize>,
            }
            &&& match r.1 {
                Some(s) => inner == Some(s@),
                None => inner is None,
            }
        }),
{
    let ghost ls = str_texts(lines@);
    if struct_line == 0 {
        return (None, None);
    }
    let mut idx = struct_line - 1;
    loop
        invariant
            idx < lines@.len(),
            ls == str_texts(lines@),
            derive_above(ls, struct_line as int) == derive_scan(ls, idx as int),
        ensures
            derive_above(ls, struct_line as int) == (None::<int>, None::<Seq<char>>),
        decreases idx,
    {
        let trimmed = trim(lines[idx]);
        assert(ls[idx as int] == lines@[idx as int]@);
        if starts_with(trimmed.as_str(), "#[derive(") && ends_with(trimmed.as_str(), ")]") {
            let v = chars_of(trimmed.as_str());
            let start = "#[derive(".unicode_len();
            let tail = ")]".unicode_len();
            proof {
                reveal_strlit("#[derive(");
                reveal_strlit(")]");
                let t = trimmed@;
                assert("#[derive("@.len() == 9);
                assert(")]"@.len() == 2);
                assert("#[derive("@[8] == '(');
                assert(")]"@[0] == ')');
                assert(")]"@[1] == ']');
                assert(t.take(9)[8] == t[8]);
                assert(t[8] == '(');
                if t.len() < 11 {
                    assert(t.skip(t.len() - 2)[0] == t[t.len() - 2]);
                    assert(t.skip(t.len() - 2)[1] == t[t.len() - 1]);
                    assert(false);
                }
            }
            let inner = string_of_chars(&v, start, v.len() - tail);
            return (Some(idx), Some(inner));
        }
        if starts_with(trimmed.as_str(), "#[") || starts_with(trimmed.as_str(), "///")
            || starts_with(trimmed.as_str(), "//!") {
            if idx == 0 {
                break;
            }
            idx = idx - 1;
            continue;
        }
        break;
    }
    (None, None)
}


// ---------------------------------------------------------------------------
// Planning the requests of the mutation verbs
// ---------------------------------------------------------------------------

/// Builds a file URI from a selector value, using the model root as base.
pub fn file_uri(model: &RustModel, file_value: &str) -> (r: String)
    ensures
        r@ == uri_in_workspace(model.root_uri@, file_value@),
{
    workspace_uri(model.root_uri.as_str(), file_value)
}

/// A one-based line number as the zero-based line of the language server; zero stays zero.
pub open spec fn lsp_line(n: u32) -> u32 {
    if n > 0 {
        (n - 1) as u32
    } else {
        n
    }
}

/// What an `extract` request asks the language server for.
pub struct ExtractPlan {
    pub func_name: String,
    pub uri: String,
    /// First line of the range, zero-based.
    pub start_line: u32,
    /// Last line of the range, zero-based.
    pub end_line: u32,
}

/// The error text of a message without suggestion.
pub open spec fn plain_error(message: Seq<char>) -> Seq<char> {
    error_text(message, None)
}

/// The request `extract` makes for the given arguments, or the error it answers: a function
/// name, an `@file:` selector and a valid `@lines:N-M` selector are needed, in that order.
pub open spec fn extract_plan_of(
    root_uri: Seq<char>,
    positionals: Seq<Seq<char>>,
    selectors: Seq<Seq<char>>,
) -> Result<(Seq<char>, Seq<char>, u32, u32), Seq<char>> {
    if positionals.len() == 0 {
        Err(plain_error("extract requires FUNC_NAME."@))
    } else {
        match first_selector_value(selectors, SelectorType::File) {
            None => Err(plain_error("extract requires @file:PATH selector."@)),
            Some(file) => match first_selector_value(selectors, SelectorType::Lines) {
                None => Err(plain_error("extract requires @lines:N-M selector."@)),
                Some(lines) => match line_range_of(lines) {
                    None => Err(
                        plain_error("invalid line range '"@ + lines + "'. Use @lines:N-M."@),
                    ),
                    Some((start, end)) => Ok(
                        (
                            positionals[0],
                            uri_in_workspace(root_uri, file),
                            lsp_line(start),
                            lsp_line(end),
                        ),
                    ),
                },
            },
        }
    }
}

/// The zero-based line of the language server for a one-based line number.
pub fn to_lsp_line(n: u32) -> (r: u32)
    ensures
        r == lsp_line(n),
{
    if n > 0 {
        n - 1
    } else {
        n
    }
}

fn error_answer(message: &str) -> (r: String)
    ensures
        r@ == plain_error(message@),
{
    format_error(message, None)
}

/// Checks the arguments of `extract` and works out its request.
pub fn plan_extract(model: &RustModel, positionals: &[String], selectors: &[String]) -> (r: Result<
    ExtractPlan,
    String,
>)
    ensures
        match r {
            Ok(p) => extract_plan_of(model.root_uri@, texts(positionals@), texts(selectors@)) == Ok::<
                (Seq<char>, Seq<char>, u32, u32),
                Seq<char>,
            >((p.func_name@, p.uri@, p.start_line, p.end_line)),
            Err(e) => extract_plan_of(model.root_uri@, texts(positionals@), texts(selectors@))
                == Err::<(Seq<char>, Seq<char>, u32, u32), Seq<char>>(e@),
        },
{
    if positionals.len() == 0 {
        return Err(error_answer("extract requires FUNC_NAME."));
    }
    assert(texts(positionals@)[0] == positionals@[0]@);
    let file_value = match selector_value(selectors, SelectorType::File) {
        Some(v) => v,
        None => return Err(error_answer("extract requires @file:PATH selector.")),
    };
    let lines_value = match selector_value(selectors, SelectorType::Lines) {
        Some(v) => v,
        None => return Err(error_answer("extract requires @lines:N-M selector.")),
    };
    let (start, end) = match parse_line_range(lines_value.as_str()) {
        Some(range) => range,
        None => {
            let mut m = String::new();
            push_str(&mut m, "invalid line range '");
            push_str(&mut m, lines_value.as_str());
            push_str(&mut m, "'. Use @lines:N-M.");
            return Err(error_answer(m.as_str()));
        },
    };
    Ok(ExtractPlan {
        func_name: positionals[0].clone(),
        uri: file_uri(model, file_value.as_str()),
        start_line: to_lsp_line(start),
        end_line: to_lsp_line(end),
    })
}

/// What an `import` request asks the language server for.
pub struct ImportPlan {
    pub symbol: String,
    pub file_value: String,
    pub uri: String,
    /// The line as the user gave it, one-based.
    pub line: u32,
    /// The line for the language server, zero-based.
    pub lsp_line: u32,
}

/// The request `import` makes for the given arguments, or the error it answers: a symbol, an
/// `@file:` selector and a numeric `@line:` selector are needed, in that order.
pub open spec fn import_plan_of(
    root_uri: Seq<char>,
    positionals: Seq<Seq<char>>,
    selectors: Seq<Seq<char>>,
) -> Result<(Seq<char>, Seq<char>, Seq<char>, u32, u32), Seq<char>> {
    if positionals.len() == 0 {
        Err(plain_error("import requires SYMBOL."@))
    } else {
        match first_selector_value(selectors, SelectorType::File) {
            None => Err(plain_error("import requires @file:PATH selector."@)),
            Some(file) => match first_selector_value(selectors, SelectorType::Line) {
                None => Err(plain_error("import requires @line:N selector."@)),
                Some(line) => match parse_u32_text(line) {
                    None => Err(plain_error("invalid line number."@)),
                    Some(n) => Ok(
                        (positionals[0], file, uri_in_workspace(root_uri, file), n, lsp_line(n)),
                    ),
                },
            },
        }
    }
}

/// Checks the arguments of `import` and works out its request.
pub fn plan_import(model: &RustModel, positionals: &[String], selectors: &[String]) -> (r: Result<
    ImportPlan,
    String,
>)
    ensures
        match r {
            Ok(p) => import_plan_of(model.root_uri@, texts(positionals@), texts(selectors@)) == Ok::<
                (Seq<char>, Seq<char>, Seq<char>, u32, u32),
                Seq<char>,
            >((p.symbol@, p.file_value@, p.uri@, p.line, p.lsp_line)),
            Err(e) => import_plan_of(model.root_uri@, texts(positionals@), texts(selectors@))
                == Err::<(Seq<char>, Seq<char>, Seq<char>, u32, u32), Seq<char>>(e@),
        },
{
    if positionals.len() == 0 {
        return Err(error_answer("import requires SYMBOL."));
    }
    assert(texts(positionals@)[0] == positionals@[0]@);
    let file_value = match selector_value(selectors, SelectorType::File) {
        Some(v) => v,
        None => return Err(error_answer("import requires @file:PATH selector.")),
    };
    let line_value = match selector_value(selectors, SelectorType::Line) {
        Some(v) => v,
        None => return Err(error_answer("import requires @line:N selector.")),
    };
    let line = match parse_u32(line_value.as_str()) {
        Some(n) => n,
        None => return Err(error_answer("invalid line number.")),
    };
    let uri = file_uri(model, file_value.as_str());
    Ok(ImportPlan {
        symbol: positionals[0].clone(),
        file_value,
        uri,
        line,
        lsp_line: to_lsp_line(line),
    })
}

/// The error `rename` answers for its positional arguments, if any: it needs a symbol and a
/// new name.
pub open spec fn rename_arguments_error(positionals: Seq<Seq<char>>) -> Option<Seq<char>> {
    if positionals.len() < 2 {
        Some(plain_error("rename requires SYMBOL and NEW_NAME."@))
    } else {
        None
    }
}

/// Checks the positional arguments of `rename`.
pub fn check_rename_arguments(positionals: &[String]) -> (r: Option<String>)
    ensures
        match r {
            Some(e) => rename_arguments_error(texts(positionals@)) == Some(e@),
            None => rename_arguments_error(texts(positionals@)) is None,
        },
{
    if positionals.len() < 2 {
        Some(error_answer("rename requires SYMBOL and NEW_NAME."))
    } else {
        None
    }
}

/// The error `inline` answers for its positional arguments, if any: it needs a symbol.
pub open spec fn inline_arguments_error(positionals: Seq<Seq<char>>) -> Option<Seq<char>> {
    if positionals.len() == 0 {
        Some(plain_error("inline requires SYMBOL."@))
    } else {
        None
    }
}

/// Checks the positional arguments of `inline`.
pub fn check_inline_arguments(positionals: &[String]) -> (r: Option<String>)
    ensures
        match r {
            Some(e) => inline_arguments_error(texts(positionals@)) == Some(e@),
            None => inline_arguments_error(texts(positionals@)) is None,
        },
{
    if positionals.len() == 0 {
        Some(error_answer("inline requires SYMBOL."))
    } else {
        None
    }
}

/// The trait and struct `generate` works on, or the error it answers: a trait and an
/// `@struct:` selector are needed.
pub open spec fn generate_target_of(positionals: Seq<Seq<char>>, selectors: Seq<Seq<char>>) -> Result<
    (Seq<char>, Seq<char>),
    Seq<char>,
> {
    if positionals.len() == 0 {
        Err(plain_error("generate requires TRAIT."@))
    } else {
        match first_selector_value(selectors, SelectorType::Struct) {
            None => Err(plain_error("generate requires @struct:NAME selector."@)),
            Some(s) => Ok((positionals[0], s)),
        }
    }
}

/// Checks the arguments of `generate`: the trait and the struct.
pub fn plan_generate(positionals: &[String], selectors: &[String]) -> (r: Result<
    (String, String),
    String,
>)
    ensures
        match r {
            Ok(p) => generate_target_of(texts(positionals@), texts(selectors@)) == Ok::<
                (Seq<char>, Seq<char>),
                Seq<char>,
            >((p.0@, p.1@)),
            Err(e) => generate_target_of(texts(positionals@), texts(selectors@)) == Err::<
                (Seq<char>, Seq<char>),
                Seq<char>,
            >(e@),
        },
{
    if positionals.len() == 0 {
        return Err(error_answer("generate requires TRAIT."));
    }
    assert(texts(positionals@)[0] == positionals@[0]@);
    match selector_value(selectors, SelectorType::Struct) {
        Some(s) => Ok((positionals[0].clone(), s)),
        None => Err(error_answer("generate requires @struct:NAME selector.")),
    }
}


// ---------------------------------------------------------------------------
// Choosing among code actions
// ---------------------------------------------------------------------------

/// The indices below `n` that satisfy `pred`, ascending.
pub open spec fn indices_where(n: nat, pred: spec_fn(int) -> bool) -> Seq<int>
    decreases n,
{
    if n == 0 {
        seq![]
    } else {
        let r = indices_where((n - 1) as nat, pred);
        if pred(n - 1) {
            r.push(n - 1)
        } else {
            r
        }
    }
}

/// The first of `picks` that satisfies `pred`.
pub open spec fn first_pick(picks: Seq<int>, pred: spec_fn(int) -> bool) -> Option<int>
    decreases picks.len(),
{
    if picks.len() == 0 {
        None
    } else if pred(picks[0]) {
        Some(picks[0])
    } else {
        first_pick(picks.drop_first(), pred)
    }
}

/// The action is marked preferred.
pub open spec fn is_preferred_action(a: CodeAction) -> bool {
    a.is_preferred == Some(true)
}

/// The lower-cased title of the action contains `word`.
pub open spec fn title_mentions(a: CodeAction, word: Seq<char>) -> bool {
    contains_text(lower_text(a.title@), word)
}

/// The chosen action, or the error answered when it carries no edit.
pub open spec fn action_with_edit(actions: Seq<CodeAction>, i: int, verb: Seq<char>) -> Result<
    int,
    Seq<char>,
> {
    if actions[i].edit is Some {
        Ok(i)
    } else {
        Err(plain_error(verb + " action has no edit."@))
    }
}

/// Which of the candidate actions to apply, or what to answer instead: none gives `none_text`;
/// one is taken; of several, the first whose title mentions `word` (when given), else the first
/// preferred one, else the choices are listed. A taken action without an edit is an error.
pub open spec fn action_pick(
    actions: Seq<CodeAction>,
    candidates: Seq<int>,
    word: Option<Seq<char>>,
    none_text: Seq<char>,
    verb: Seq<char>,
) -> Result<int, Seq<char>> {
    if candidates.len() == 0 {
        Err(none_text)
    } else if candidates.len() == 1 {
        action_with_edit(actions, candidates[0], verb)
    } else {
        let by_word = match word {
            Some(w) => first_pick(candidates, |i: int| title_mentions(actions[i], w)),
            None => None,
        };
        match by_word {
            Some(i) => action_with_edit(actions, i, verb),
            None => match first_pick(candidates, |i: int| is_preferred_action(actions[i])) {
                Some(i) => action_with_edit(actions, i, verb),
                None => Err(
                    code_action_choices_text(candidates.map_values(|i: int| actions[i])),
                ),
            },
        }
    }
}

/// Indices of a `Vec<usize>` as integers.
pub open spec fn as_ints(v: Seq<usize>) -> Seq<int> {
    v.map_values(|i: usize| i as int)
}

fn title_contains(a: &CodeAction, word: &str) -> (r: bool)
    ensures
        r == title_mentions(*a, word@),
{
    let lower = to_lowercase(a.title.as_str());
    contains(lower.as_str(), word)
}

fn pick_action(
    actions: &[CodeAction],
    candidates: &Vec<usize>,
    word: Option<&str>,
    none_text: String,
    verb: &str,
) -> (r: Result<usize, String>)
    requires
        forall|k: int| 0 <= k < candidates@.len() ==> #[trigger] candidates@[k] < actions@.len(),
    ensures
        match r {
            Ok(i) => action_pick(
                actions@,
                as_ints(candidates@),
                match word {
                    Some(w) => Some(w@),
                    None => None,
                },
                none_text@,
                verb@,
            ) == Ok::<int, Seq<char>>(i as int),
            Err(e) => action_pick(
                actions@,
                as_ints(candidates@),
                match word {
                    Some(w) => Some(w@),
                    None => None,
                },
                none_text@,
                verb@,
            ) == Err::<int, Seq<char>>(e@),
        },
{
    let ghost c = as_ints(candidates@);
    let ghost w = match word {
        Some(w) => Some(w@),
        None => None::<Seq<char>>,
    };
    if candidates.len() == 0 {
        return Err(none_text);
    }
    let chosen: Option<usize> = if candidates.len() == 1 {
        Some(candidates[0])
    } else {
        let mut by_word: Option<usize> = None;
        if let Some(wd) = word {
            let mut k: usize = 0;
            assert(c.skip(0) =~= c);
            while k < candidates.len() && by_word.is_none()
                invariant
                    k <= candidates@.len(),
                    c == as_ints(candidates@),
                    w == Some(wd@),
                    forall|j: int| 0 <= j < candidates@.len() ==> #[trigger] candidates@[j] < actions@.len(),
                    by_word is None ==> first_pick(c, |i: int| title_mentions(actions@[i], wd@))
                        == first_pick(c.skip(k as int), |i: int| title_mentions(actions@[i], wd@)),
                    by_word matches Some(i) ==> i < actions@.len() && first_pick(
                        c,
                        |i: int| title_mentions(actions@[i], wd@),
                    ) == Some(i as int),
                decreases candidates@.len() - k,
            {
                assert(c.skip(k as int)[0] == candidates@[k as int] as int);
                assert(c.skip(k as int).drop_first() =~= c.skip(k + 1));
                if title_contains(&actions[candidates[k]], wd) {
                    by_word = Some(candidates[k]);
                }
                k = k + 1;
            }
        }
        match by_word {
            Some(i) => Some(i),
            None => {
                let mut pref: Option<usize> = None;
                let mut k: usize = 0;
                assert(c.skip(0) =~= c);
                while k < candidates.len() && pref.is_none()
                    invariant
                        k <= candidates@.len(),
                        c == as_ints(candidates@),
                        forall|j: int| 0 <= j < candidates@.len() ==> #[trigger] candidates@[j] < actions@.len(),
                        pref is None ==> first_pick(c, |i: int| is_preferred_action(actions@[i]))
                            == first_pick(c.skip(k as int), |i: int| is_preferred_action(actions@[i])),
                        pref matches Some(i) ==> i < actions@.len() && first_pick(
                            c,
                            |i: int| is_preferred_action(actions@[i]),
                        ) == Some(i as int),
                    decreases candidates@.len() - k,
                {
                    assert(c.skip(k as int)[0] == candidates@[k as int] as int);
                    assert(c.skip(k as int).drop_first() =~= c.skip(k + 1));
                    if actions[candidates[k]].is_preferred == Some(true) {
                        pref = Some(candidates[k]);
                    }
                    k = k + 1;
                }
                pref
            },
        }
    };
    match chosen {
        Some(i) => {
            if actions[i].edit.is_some() {
                Ok(i)
            } else {
                let mut m = String::new();
                push_str(&mut m, verb);
                push_str(&mut m, " action has no edit.");
                Err(error_answer(m.as_str()))
            }
        },
        None => {
            assert(candidates@.map_values(|i: usize| actions@[i as int]) =~= c.map_values(
                |i: int| actions@[i],
            ));
            Err(format_code_action_subset(actions, candidates))
        },
    }
}

/// The action is an extract refactoring (its kind starts with `refactor.extract`).
pub open spec fn is_extract_action(a: CodeAction) -> bool {
    match a.kind {
        Some(k) => text_prefix("refactor.extract"@, k@),
        None => false,
    }
}

/// Which code action `extract` applies, or what it answers instead.
pub open spec fn extract_choice(actions: Seq<CodeAction>) -> Result<int, Seq<char>> {
    action_pick(
        actions,
        indices_where(actions.len(), |i: int| is_extract_action(actions[i])),
        Some("function"@),
        plain_error("no extract action available for the selected range."@),
        "extract"@,
    )
}

/// Chooses the extract action to apply among those the language server offers; prefers one
/// that extracts into a function.
pub fn choose_extract_action(actions: &[CodeAction]) -> (r: Result<usize, String>)
    ensures
        match r {
            Ok(i) => extract_choice(actions@) == Ok::<int, Seq<char>>(i as int),
            Err(e) => extract_choice(actions@) == Err::<int, Seq<char>>(e@),
        },
{
    let mut c: Vec<usize> = Vec::new();
    let mut i: usize = 0;
    while i < actions.len()
        invariant
            i <= actions@.len(),
            as_ints(c@) == indices_where(i as nat, |j: int| is_extract_action(actions@[j])),
            forall|k: int| 0 <= k < c@.len() ==> #[trigger] c@[k] < i,
        decreases actions@.len() - i,
    {
        let is_extract = match &actions[i].kind {
            Some(k) => crate::text::starts_with(k.as_str(), "refactor.extract"),
            None => false,
        };
        if is_extract {
            let ghost prev = as_ints(c@);
            c.push(i);
            assert(as_ints(c@) =~= prev.push(i as int));
        }
        i = i + 1;
    }
    pick_action(
        actions,
        &c,
        Some("function"),
        error_answer("no extract action available for the selected range."),
        "extract",
    )
}

/// The action inlines (its kind or its lower-cased title mentions `inline`).
pub open spec fn is_inline_action(a: CodeAction) -> bool {
    (match a.kind {
        Some(k) => contains_text(k@, "inline"@),
        None => false,
    }) || title_mentions(a, "inline"@)
}

/// Which code action `inline` applies to `name`, or what it answers instead.
pub open spec fn inline_choice(actions: Seq<CodeAction>, name: Seq<char>) -> Result<int, Seq<char>> {
    action_pick(
        actions,
        indices_where(actions.len(), |i: int| is_inline_action(actions[i])),
        None,
        plain_error("no inline action available for '"@ + name + "'."@),
        "inline"@,
    )
}

/// Chooses the inline action to apply among those the language server offers.
pub fn choose_inline_action(actions: &[CodeAction], name: &str) -> (r: Result<usize, String>)
    ensures
        match r {
            Ok(i) => inline_choice(actions@, name@) == Ok::<int, Seq<char>>(i as int),
            Err(e) => inline_choice(actions@, name@) == Err::<int, Seq<char>>(e@),
        },
{
    let mut c: Vec<usize> = Vec::new();
    let mut i: usize = 0;
    while i < actions.len()
        invariant
            i <= actions@.len(),
            as_ints(c@) == indices_where(i as nat, |j: int| is_inline_action(actions@[j])),
            forall|k: int| 0 <= k < c@.len() ==> #[trigger] c@[k] < i,
        decreases actions@.len() - i,
    {
        let a = &actions[i];
        let kind_match = match &a.kind {
            Some(k) => contains(k.as_str(), "inline"),
            None => false,
        };
        if kind_match || title_contains(a, "inline") {
            let ghost prev = as_ints(c@);
            c.push(i);
            assert(as_ints(c@) =~= prev.push(i as int));
        }
        i = i + 1;
    }
    let mut none_text = String::new();
    push_str(&mut none_text, "no inline action available for '");
    push_str(&mut none_text, name);
    push_str(&mut none_text, "'.");
    pick_action(actions, &c, None, error_answer(none_text.as_str()), "inline")
}

/// The action may generate the trait (its lower-cased title mentions the trait or a generating
/// phrase).
pub open spec fn is_generate_action(a: CodeAction, trait_lower: Seq<char>) -> bool {
    title_mentions(a, trait_lower) || title_mentions(a, "generate"@) || title_mentions(
        a,
        "implement missing"@,
    ) || title_mentions(a, "add impl"@)
}

/// Which code action `generate` applies for a trait that cannot be derived, or what it answers
/// instead; among several it prefers one that mentions the trait.
pub open spec fn generate_choice(
    actions: Seq<CodeAction>,
    trait_name: Seq<char>,
    struct_name: Seq<char>,
) -> Result<int, Seq<char>> {
    let t = lower_text(trait_name);
    action_pick(
        actions,
        indices_where(actions.len(), |i: int| is_generate_action(actions[i], t)),
        Some(t),
        plain_error(
            "no generate action for '"@ + trait_name + "' on struct '"@ + struct_name + "'."@,
        ),
        "generate"@,
    )
}

/// Chooses the code action that generates `trait_name` for `struct_name`.
pub fn choose_generate_action(actions: &[CodeAction], trait_name: &str, struct_name: &str) -> (r:
    Result<usize, String>)
    ensures
        match r {
            Ok(i) => generate_choice(actions@, trait_name@, struct_name@) == Ok::<int, Seq<char>>(
                i as int,
            ),
            Err(e) => generate_choice(actions@, trait_name@, struct_name@) == Err::<
                int,
                Seq<char>,
            >(e@),
        },
{
    let trait_lower = to_lowercase(trait_name);
    let t = trait_lower.as_str();
    let mut c: Vec<usize> = Vec::new();
    let mut i: usize = 0;
    while i < actions.len()
        invariant
            i <= actions@.len(),
            t@ == lower_text(trait_name@),
            as_ints(c@) == indices_where(
                i as nat,
                |j: int| is_generate_action(actions@[j], lower_text(trait_name@)),
            ),
            forall|k: int| 0 <= k < c@.len() ==> #[trigger] c@[k] < i,
        decreases actions@.len() - i,
    {
        let a = &actions[i];
        if title_contains(a, t) || title_contains(a, "generate") || title_contains(
            a,
            "implement missing",
        ) || title_contains(a, "add impl") {
            let ghost prev = as_ints(c@);
            c.push(i);
            assert(as_ints(c@) =~= prev.push(i as int));
        }
        i = i + 1;
    }
    let mut none_text = String::new();
    push_str(&mut none_text, "no generate action for '");
    push_str(&mut none_text, trait_name);
    push_str(&mut none_text, "' on struct '");
    push_str(&mut none_text, struct_name);
    push_str(&mut none_text, "'.");
    pick_action(actions, &c, Some(t), error_answer(none_text.as_str()), "generate")
}

/// The action's kind is about imports: it mentions `import`, is `quickfix`, or starts with
/// `source`.
pub open spec fn has_import_kind(a: CodeAction) -> bool {
    match a.kind {
        Some(k) => contains_text(k@, "import"@) || k@ == "quickfix"@ || text_prefix("source"@, k@),
        None => false,
    }
}

/// The action imports the symbol: it is about imports by kind or title, and its lower-cased
/// title mentions the lower-cased symbol.
pub open spec fn is_import_action(a: CodeAction, symbol_lower: Seq<char>) -> bool {
    (has_import_kind(a) || title_mentions(a, "import"@) || title_mentions(a, "use "@))
        && title_mentions(a, symbol_lower)
}

/// Which code action `import` applies, or what it answers instead.
pub open spec fn import_choice(
    actions: Seq<CodeAction>,
    symbol: Seq<char>,
    file_value: Seq<char>,
    line: u32,
) -> Result<int, Seq<char>> {
    let s = lower_text(symbol);
    action_pick(
        actions,
        indices_where(actions.len(), |i: int| is_import_action(actions[i], s)),
        None,
        plain_error(
            "no import action for '"@ + symbol + "' at "@ + file_value + ":"@ + crate::text::decimal(
                line as nat,
            ) + "."@,
        ),
        "import"@,
    )
}

/// Chooses the code action that imports `symbol` at the given place.
pub fn choose_import_action(actions: &[CodeAction], symbol: &str, file_value: &str, line: u32) -> (r:
    Result<usize, String>)
    ensures
        match r {
            Ok(i) => import_choice(actions@, symbol@, file_value@, line) == Ok::<int, Seq<char>>(
                i as int,
            ),
            Err(e) => import_choice(actions@, symbol@, file_value@, line) == Err::<
                int,
                Seq<char>,
            >(e@),
        },
{
    let symbol_lower = to_lowercase(symbol);
    let sl = symbol_lower.as_str();
    let mut c: Vec<usize> = Vec::new();
    let mut i: usize = 0;
    while i < actions.len()
        invariant
            i <= actions@.len(),
            sl@ == lower_text(symbol@),
            as_ints(c@) == indices_where(
                i as nat,
                |j: int| is_import_action(actions@[j], lower_text(symbol@)),
            ),
            forall|k: int| 0 <= k < c@.len() ==> #[trigger] c@[k] < i,
        decreases actions@.len() - i,
    {
        let a = &actions[i];
        let kind_match = match &a.kind {
            Some(k) => contains(k.as_str(), "import") || crate::text::equals(k.as_str(), "quickfix")
                || crate::text::starts_with(k.as_str(), "source"),
            None => false,
        };
        if (kind_match || title_contains(a, "import") || title_contains(a, "use ")) && title_contains(
            a,
            sl,
        ) {
            let ghost prev = as_ints(c@);
            c.push(i);
            assert(as_ints(c@) =~= prev.push(i as int));
        }
        i = i + 1;
    }
    let mut none_text = String::new();
    push_str(&mut none_text, "no import action for '");
    push_str(&mut none_text, symbol);
    push_str(&mut none_text, "' at ");
    push_str(&mut none_text, file_value);
    push_str(&mut none_text, ":");
    push_decimal(&mut none_text, line as u64);
    push_str(&mut none_text, ".");
    pick_action(actions, &c, None, error_answer(none_text.as_str()), "import")
}


// ---------------------------------------------------------------------------
// Adding a derive attribute
// ---------------------------------------------------------------------------

/// One of the comma-separated entries of a derive list is, trimmed, the trait (up to ASCII
/// case).
pub open spec fn already_derived(existing: Seq<char>, canonical: Seq<char>) -> bool {
    exists|k: int|
        0 <= k < split_all(existing, ',').len() && same_ignoring_ascii_case(
            trim_text(#[trigger] split_all(existing, ',')[k]),
            canonical,
        )
}

/// The derive line with `, <trait>` inserted before its last `)`.
pub open spec fn with_derive_appended(line: Seq<char>, canonical: Seq<char>) -> Seq<char> {
    match last_index_of(line, ')') {
        Some(c) => line.take(c) + ", "@ + canonical + line.skip(c),
        None => line,
    }
}

/// The leading white space of a line.
pub open spec fn leading_indent(l: Seq<char>) -> Seq<char> {
    l.take(l.len() - trim_start_text(l).len())
}

/// The new source after adding `#[derive(<trait>)]` to the struct at `struct_line`: the trait
/// is appended to a derive attribute directly above (past other attributes and doc comments),
/// or a new attribute with the struct line's indentation is inserted above it. A trait that is
/// already in the list is an error. The lines are joined with `\n`, and a final newline of the
/// source is kept.
pub open spec fn derive_edit(
    content: Seq<char>,
    struct_line: int,
    canonical: Seq<char>,
    struct_name: Seq<char>,
) -> Result<Seq<char>, Seq<char>> {
    let ls = lines_of(content);
    let (idx, existing) = derive_above(ls, struct_line);
    let body = match existing {
        Some(e) => if already_derived(e, canonical) {
            None
        } else {
            let i = idx.unwrap();
            Some(join_lines(ls.update(i, with_derive_appended(ls[i], canonical))))
        },
        None => {
            let indent = if struct_line < ls.len() {
                leading_indent(ls[struct_line])
            } else {
                seq![]
            };
            Some(join_lines(ls.insert(struct_line, indent + "#[derive("@ + canonical + ")]"@)))
        },
    };
    match body {
        None => Err(plain_error(canonical + " is already derived for "@ + struct_name + "."@)),
        Some(b) => Ok(
            if is_suffix_of("\n"@, content) && !is_suffix_of("\n"@, b) {
                b + "\n"@
            } else {
                b
            },
        ),
    }
}

/// One comma-separated entry of `list`, trimmed, is `canonical` up to ASCII case.
pub open spec fn lists_trait(list: Seq<char>, canonical: Seq<char>, k: int) -> bool {
    0 <= k < split_all(list, ',').len() && same_ignoring_ascii_case(
        trim_text(split_all(list, ',')[k]),
        canonical,
    )
}

/// `generate` refuses a trait that the derive attribute above the struct already lists: when
/// any comma-separated entry of that list, trimmed, is the trait up to ASCII case, the result
/// is the error that says so; and it refuses nothing else.
pub proof fn law_derive_refuses_listed_trait(
    content: Seq<char>,
    struct_line: int,
    canonical: Seq<char>,
    struct_name: Seq<char>,
    k: int,
)
    ensures
        (derive_above(lines_of(content), struct_line).1 matches Some(e) && lists_trait(
            e,
            canonical,
            k,
        )) ==> derive_edit(content, struct_line, canonical, struct_name) == Err::<
            Seq<char>,
            Seq<char>,
        >(plain_error(canonical + " is already derived for "@ + struct_name + "."@)),
        derive_edit(content, struct_line, canonical, struct_name) is Err ==> (derive_above(
            lines_of(content),
            struct_line,
        ).1 matches Some(e) && exists|j: int| #[trigger] lists_trait(e, canonical, j)),
{
    if let Some(e) = derive_above(lines_of(content), struct_line).1 {
        if lists_trait(e, canonical, k) {
            assert(same_ignoring_ascii_case(trim_text(split_all(e, ',')[k]), canonical));
            assert(already_derived(e, canonical));
        }
        if already_derived(e, canonical) {
            let j = choose|j: int|
                0 <= j < split_all(e, ',').len() && same_ignoring_ascii_case(
                    trim_text(#[trigger] split_all(e, ',')[j]),
                    canonical,
                );
            assert(lists_trait(e, canonical, j));
        }
    }
}

/// The derive attribute right above a struct is the one `generate` extends: when the line
/// above the struct is, trimmed, `#[derive(<list>)]`, its list is `<list>`.
pub proof fn law_derive_line_above(lines: Seq<Seq<char>>, struct_line: int, list: Seq<char>)
    requires
        0 < struct_line <= lines.len(),
        trim_text(lines[struct_line - 1]) == "#[derive("@ + list + ")]"@,
    ensures
        derive_above(lines, struct_line) == (Some(struct_line - 1), Some(list)),
{
    reveal_strlit("#[derive(");
    reveal_strlit(")]");
    let t = "#[derive("@ + list + ")]"@;
    assert(t.take(9) =~= "#[derive("@);
    assert(t.skip(t.len() - 2) =~= ")]"@);
    assert(t.subrange(9, t.len() - 2) =~= list);
}

/// Adding a derive keeps a final newline: when the source ends with one, so does the result.
pub proof fn law_derive_keeps_final_newline(
    content: Seq<char>,
    struct_line: int,
    canonical: Seq<char>,
    struct_name: Seq<char>,
)
    requires
        is_suffix_of("\n"@, content),
    ensures
        derive_edit(content, struct_line, canonical, struct_name) matches Ok(b) ==> is_suffix_of(
            "\n"@,
            b,
        ),
{
    if let Ok(b) = derive_edit(content, struct_line, canonical, struct_name) {
        if !is_suffix_of("\n"@, b) {
            let ls = lines_of(content);
            let (idx, existing) = derive_above(ls, struct_line);
            let body = match existing {
                Some(e) => join_lines(ls.update(idx.unwrap(), with_derive_appended(ls[idx.unwrap()], canonical))),
                None => {
                    let indent = if struct_line < ls.len() {
                        leading_indent(ls[struct_line])
                    } else {
                        seq![]
                    };
                    join_lines(ls.insert(struct_line, indent + "#[derive("@ + canonical + ")]"@))
                },
            };
            assert(b == body + "\n"@);
            assert((body + "\n"@).skip((body + "\n"@).len() - "\n"@.len()) =~= "\n"@);
        }
    }
}

proof fn lemma_derive_scan_shape(lines: Seq<Seq<char>>, idx: int)
    requires
        0 <= idx < lines.len(),
    ensures
        derive_scan(lines, idx).0 is Some <==> derive_scan(lines, idx).1 is Some,
        derive_scan(lines, idx).0 matches Some(i) ==> 0 <= i < lines.len() && is_derive_line(
            trim_text(lines[i]),
        ),
    decreases idx,
{
    let t = trim_text(lines[idx]);
    if !is_derive_line(t) && is_passable_line(t) && idx > 0 {
        lemma_derive_scan_shape(lines, idx - 1);
    }
}

/// Adds `canonical` to the derive list of the struct at line `struct_line` of `content`, or
/// says that it is already there.
pub fn add_derive(content: &str, struct_line: usize, canonical: &str, struct_name: &str) -> (r:
    Result<String, String>)
    requires
        struct_line <= lines_of(content@).len(),
    ensures
        match r {
            Ok(s) => derive_edit(content@, struct_line as int, canonical@, struct_name@) == Ok::<
                Seq<char>,
                Seq<char>,
            >(s@),
            Err(e) => derive_edit(content@, struct_line as int, canonical@, struct_name@) == Err::<
                Seq<char>,
                Seq<char>,
            >(e@),
        },
{
    let mut ls = lines(content);
    let ghost lv = lines_of(content@);
    let mut refs: Vec<&str> = Vec::new();
    let mut k: usize = 0;
    while k < ls.len()
        invariant
            k <= ls@.len(),
            refs@.len() == k,
            forall|q: int| 0 <= q < k ==> (#[trigger] refs@[q])@ == ls@[q]@,
        decreases ls@.len() - k,
    {
        refs.push(ls[k].as_str());
        k = k + 1;
    }
    assert(str_texts(refs@) =~= lv);
    let (idx, existing) = find_derive_above(refs.as_slice(), struct_line);
    proof {
        if struct_line > 0 {
            lemma_derive_scan_shape(lv, struct_line - 1);
        }
    }
    let body: String = match existing {
        Some(e) => {
            let pieces = split(e.as_str(), ',');
            let mut j: usize = 0;
            while j < pieces.len()
                invariant
                    j <= pieces@.len(),
                    texts(pieces@) == split_all(e@, ','),
                    derive_above(lv, struct_line as int).1 == Some(e@),
                    lv == lines_of(content@),
                    forall|q: int| 0 <= q < j ==> !same_ignoring_ascii_case(
                        trim_text(#[trigger] split_all(e@, ',')[q]),
                        canonical@,
                    ),
                decreases pieces@.len() - j,
            {
                assert(split_all(e@, ',')[j as int] == pieces@[j as int]@);
                if eq_ignore_ascii_case(trim(pieces[j].as_str()).as_str(), canonical) {
                    let mut m = String::new();
                    push_str(&mut m, canonical);
                    push_str(&mut m, " is already derived for ");
                    push_str(&mut m, struct_name);
                    push_str(&mut m, ".");
                    assert(already_derived(e@, canonical@));
                    return Err(error_answer(m.as_str()));
                }
                j = j + 1;
            }
            let i = match idx {
                Some(i) => i,
                None => {
                    assert(false);
                    0
                },
            };
            let lchars = chars_of(ls[i].as_str());
            proof {
                let t = trim_text(lv[i as int]);
                reveal_strlit(")]");
                assert(is_suffix_of(")]"@, t));
                assert(t[t.len() - 2] == t.skip(t.len() - 2)[0]);
                let b = lemma_trim_is_piece(lv[i as int]);
                assert(lv[i as int][b + t.len() - 2] == ')');
                lemma_last_index_of(lv[i as int], ')', b + t.len() - 2);
                assert(texts(ls@)[i as int] == ls@[i as int]@);
            }
            let close = match rfind_char(&lchars, ')') {
                Some(c) => c,
                None => {
                    assert(false);
                    0
                },
            };
            let mut new_line = string_of_chars(&lchars, 0, close);
            push_str(&mut new_line, ", ");
            push_str(&mut new_line, canonical);
            push_str(&mut new_line, string_of_chars(&lchars, close, lchars.len()).as_str());
            assert(new_line@ =~= with_derive_appended(lv[i as int], canonical@));
            let ghost before = texts(ls@);
            ls.set(i, new_line);
            assert(texts(ls@) =~= before.update(i as int, with_derive_appended(lv[i as int], canonical@)));
            join_newline(&ls)
        },
        None => {
            let mut attr = if struct_line < ls.len() {
                let l = ls[struct_line].as_str();
                let lc = chars_of(l);
                let rest = trim_start(l);
                proof {
                    crate::text::lemma_trim_start_is_suffix(l@);
                    assert(texts(ls@)[struct_line as int] == ls@[struct_line as int]@);
                }
                string_of_chars(&lc, 0, lc.len() - rest.unicode_len())
            } else {
                String::new()
            };
            push_str(&mut attr, "#[derive(");
            push_str(&mut attr, canonical);
            push_str(&mut attr, ")]");
            let ghost before = texts(ls@);
            let ghost a = attr@;
            ls.insert(struct_line, attr);
            assert(texts(ls@) =~= before.insert(struct_line as int, a));
            join_newline(&ls)
        },
    };
    let mut out = body;
    if crate::text::ends_with(content, "\n") && !crate::text::ends_with(out.as_str(), "\n") {
        push_str(&mut out, "\n");
    }
    Ok(out)
}

/// `uri` with the workspace root and the slashes after it taken off.
pub open spec fn root_relative_text(uri: Seq<char>, root: Seq<char>) -> Seq<char> {
    trim_start_char(
        match strip_prefix_text(uri, root) {
            Some(p) => p,
            None => uri,
        },
        '/',
    )
}

/// The description `generate` gives of adding a derive.
pub open spec fn derive_description(
    root: Seq<char>,
    uri: Seq<char>,
    canonical: Seq<char>,
    struct_name: Seq<char>,
) -> Seq<char> {
    "#[derive("@ + canonical + ")] for "@ + struct_name + " in "@ + root_relative_text(uri, root)
}

/// What `generate` answers after adding a derive: one edit in one file, the struct's.
pub open spec fn derive_summary_text(
    root: Seq<char>,
    uri: Seq<char>,
    canonical: Seq<char>,
    struct_name: Seq<char>,
) -> Seq<char> {
    let description = derive_description(root, uri, canonical, struct_name);
    join_lines(
        seq![
            "generate"@ + ": "@ + description + " ("@ + decimal(1) + " "@ + "file"@ + ", "@
                + decimal(1) + " "@ + "edit"@ + ")"@,
            "  "@ + relative_path_text(uri, root) + ": "@ + decimal(1) + " "@ + "edit"@,
        ],
    )
}

/// The summary of adding `canonical` to the derive list of `struct_name` in the file `uri`.
pub fn derive_summary(root_uri: &str, uri: &str, canonical: &str, struct_name: &str) -> (r: String)
    ensures
        r@ == derive_summary_text(root_uri@, uri@, canonical@, struct_name@),
{
    let tail = match strip_prefix(uri, root_uri) {
        Some(p) => p,
        None => uri.to_owned(),
    };
    let rel = trim_start_matches(tail.as_str(), '/');
    let mut description = String::new();
    push_str(&mut description, "#[derive(");
    push_str(&mut description, canonical);
    push_str(&mut description, ")] for ");
    push_str(&mut description, struct_name);
    push_str(&mut description, " in ");
    push_str(&mut description, rel.as_str());
    let mut changed: Vec<(String, usize)> = Vec::new();
    changed.push((uri.to_owned(), 1));
    let result = ApplyResult { files_changed: changed, files_created: Vec::new(), files_renamed: Vec::new() };
    proof {
        assert(result.files_changed@.drop_last() =~= Seq::<(String, usize)>::empty());
        assert(edit_count_sum(result.files_changed@) == 1) by {
            reveal_with_fuel(edit_count_sum, 2);
        }
    }
    let r = format_mutation_result("generate", description.as_str(), &result, root_uri);
    proof {
        let d = derive_description(root_uri@, uri@, canonical@, struct_name@);
        assert(description@ == d);
        assert(mutation_lines("generate"@, d, result, root_uri@) =~= seq![
            "generate"@ + ": "@ + d + " ("@ + decimal(1) + " "@ + "file"@ + ", "@ + decimal(1) + " "@
                + "edit"@ + ")"@,
            "  "@ + relative_path_text(uri@, root_uri@) + ": "@ + decimal(1) + " "@ + "edit"@,
        ]);
    }
    r
}

// ---------------------------------------------------------------------------
// The placeholder name an extraction leaves
// ---------------------------------------------------------------------------

/// The first index at or after `i` where `pat` occurs in `hay`.
pub open spec fn occurrence_from(hay: Seq<u8>, pat: Seq<u8>, i: int) -> Option<int>
    decreases hay.len() + 1 - i,
{
    if i < 0 || i + pat.len() > hay.len() {
        None
    } else if hay.subrange(i, i + pat.len()) == pat {
        Some(i)
    } else {
        occurrence_from(hay, pat, i + 1)
    }
}

/// The line and the column, in characters, reached after walking over `s`.
pub open spec fn line_col(s: Seq<char>) -> (nat, nat)
    decreases s.len(),
{
    if s.len() == 0 {
        (0, 0)
    } else {
        let (l, c) = line_col(s.drop_last());
        if s.last() == '\n' {
            (l + 1, 0)
        } else {
            (l, c + 1)
        }
    }
}

/// Where the name `fun_name` of the function that an extraction generates stands: the
/// byte offset just past the first `fn ` of `fn fun_name`, walked as that many characters
/// from the start (byte offset and character count agree on ASCII text); none without it.
pub open spec fn placeholder_position(content: Seq<char>) -> Option<(nat, nat)> {
    match occurrence_from(encode_utf8(content), encode_utf8("fn fun_name"@), 0) {
        Some(k) => Some(
            line_col(
                content.take(
                    if k + 3 < content.len() {
                        k + 3
                    } else {
                        content.len() as int
                    },
                ),
            ),
        ),
        None => None,
    }
}

proof fn lemma_occurrence_bounds(hay: Seq<u8>, pat: Seq<u8>, i: int)
    ensures
        occurrence_from(hay, pat, i) matches Some(k) ==> i <= k && k + pat.len() <= hay.len()
            && hay.subrange(k, k + pat.len()) == pat,
    decreases hay.len() + 1 - i,
{
    if !(i < 0 || i + pat.len() > hay.len()) && hay.subrange(i, i + pat.len()) != pat {
        lemma_occurrence_bounds(hay, pat, i + 1);
    }
}

fn bytes_match_at(hay: &[u8], pat: &[u8], i: usize) -> (r: bool)
    requires
        i + pat@.len() <= hay@.len(),
        hay@.len() <= usize::MAX,
    ensures
        r == (hay@.subrange(i as int, i + pat@.len()) == pat@),
{
    let mut j: usize = 0;
    while j < pat.len()
        invariant
            i + pat@.len() <= hay@.len(),
            hay@.len() <= usize::MAX,
            j <= pat@.len(),
            hay@.subrange(i as int, i + j) =~= pat@.take(j as int),
        decreases pat@.len() - j,
    {
        if hay[i + j] != pat[j] {
            assert(hay@.subrange(i as int, i + pat@.len())[j as int] != pat@[j as int]);
            return false;
        }
        assert(hay@.subrange(i as int, i + j + 1) =~= pat@.take(j + 1));
        j = j + 1;
    }
    assert(pat@.take(j as int) =~= pat@);
    true
}

/// The first index where `pat` occurs in `hay`.
fn find_bytes(hay: &[u8], pat: &[u8]) -> (r: Option<usize>)
    ensures
        match r {
            Some(k) => occurrence_from(hay@, pat@, 0) == Some(k as int),
            None => occurrence_from(hay@, pat@, 0) is None,
        },
{
    let n = hay.len();
    let m = pat.len();
    if m > n {
        return None;
    }
    let last = n - m;
    let mut i: usize = 0;
    loop
        invariant
            n == hay@.len(),
            m == pat@.len(),
            last == n - m,
            i <= last,
            occurrence_from(hay@, pat@, 0) == occurrence_from(hay@, pat@, i as int),
        decreases last - i,
    {
        if bytes_match_at(hay, pat, i) {
            return Some(i);
        }
        if i == last {
            assert(occurrence_from(hay@, pat@, i + 1) is None);
            return None;
        }
        i = i + 1;
    }
}

/// The line and column of the name `fun_name` that an extraction generated in `content`.
pub fn placeholder_name_position(content: &str) -> (r: Option<(u32, u32)>)
    requires
        content@.len() <= u32::MAX,
    ensures
        match r {
            Some((l, c)) => placeholder_position(content@) == Some((l as nat, c as nat)),
            None => placeholder_position(content@) is None,
        },
{
    let hay = content.as_bytes();
    let pat = "fn fun_name".as_bytes();
    let k = match find_bytes(hay, pat) {
        Some(k) => k,
        None => {
            return None;
        },
    };
    let chars = chars_of(content);
    let stop = if k < chars.len() && chars.len() - k > 3 {
        k + 3
    } else {
        chars.len()
    };
    let mut line: u32 = 0;
    let mut col: u32 = 0;
    let mut i: usize = 0;
    assert(chars@.take(0) =~= Seq::<char>::empty());
    while i < stop
        invariant
            stop <= chars@.len(),
            chars@.len() <= u32::MAX,
            i <= stop,
            line <= i,
            col <= i,
            line_col(chars@.take(i as int)) == (line as nat, col as nat),
        decreases stop - i,
    {
        assert(chars@.take(i + 1).drop_last() =~= chars@.take(i as int));
        if chars[i] == '\n' {
            line = line + 1;
            col = 0;
        } else {
            col = col + 1;
        }
        i = i + 1;
    }
    Some((line, col))
}

} // verus!
