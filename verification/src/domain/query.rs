//! The parts of the query verbs that compute on plain values.
use crate::domain::format::{
    diagnostics_text, finding_pairs, findings_cut_cleanly, format_diagnostics, format_unused,
    format_workspace_map, messages_are_safe, messages_cut_cleanly, summary_cuts_cleanly,
    summary_is_safe,
    unused_report, workspace_map_text,
};
use crate::domain::model::{files_severity_count, files_total, RustModel};
use crate::lsp::types::{Diagnostic, DiagnosticSeverity, DocumentSymbol};
use crate::resolver::index::SymbolEntry;
use crate::resolver::selectors::{first_selector_value, selector_value, SelectorType};
use crate::text::{
    contains, contains_text, decimal, ends_with, equals, is_prefix_of, is_suffix_of, join_with,
    join_with_text, lemma_text_less_order, less_than, push_decimal, push_str, starts_with,
    text_less, texts, to_lowercase, trim_end_char, trim_end_matches, lower_text,
};
use vstd::prelude::*;

verus! {

/// The optional name as text.
pub open spec fn name_text(n: Option<&str>) -> Option<Seq<char>> {
    match n {
        Some(s) => Some(s@),
        None => None,
    }
}

/// The optional string as text.
pub open spec fn string_text(n: Option<String>) -> Option<Seq<char>> {
    match n {
        Some(s) => Some(s@),
        None => None,
    }
}

/// `e` describes `sym` found under the parent `parent`, with an empty URI for the caller to
/// fill in.
pub open spec fn entry_of_symbol(e: SymbolEntry, sym: DocumentSymbol, parent: Option<Seq<char>>) -> bool {
    &&& e.name@ == sym.name@
    &&& e.kind == sym.kind
    &&& string_text(e.container_name) == parent
    &&& e.uri@ == Seq::<char>::empty()
    &&& e.range == sym.range
    &&& e.selection_range == sym.selection_range
}

/// `sym` has the name and its range covers `line`.
pub open spec fn symbol_at(sym: DocumentSymbol, name: Seq<char>, line: u32) -> bool {
    sym.name@ == name && sym.range.start.line <= line && line <= sym.range.end.line
}

/// Depth-first search of a symbol tree, parents before children, for the first symbol named
/// `name` whose range covers `line` (when `line` is given); yields it and its parent's name.
pub open spec fn tree_search(
    symbols: Seq<DocumentSymbol>,
    name: Seq<char>,
    line: Option<u32>,
    parent: Option<Seq<char>>,
) -> Option<(DocumentSymbol, Option<Seq<char>>)>
    decreases symbols,
{
    if symbols.len() == 0 {
        None
    } else {
        let sym = symbols[0];
        let hit = match line {
            Some(l) => symbol_at(sym, name, l),
            None => sym.name@ == name,
        };
        if hit {
            Some((sym, parent))
        } else {
            let below = match sym.children {
                Some(c) => tree_search(c@, name, line, Some(sym.name@)),
                None => None,
            };
            match below {
                Some(found) => Some(found),
                None => tree_search(symbols.drop_first(), name, line, parent),
            }
        }
    }
}

/// The result of a tree search as an entry.
pub open spec fn search_result(
    r: Option<SymbolEntry>,
    found: Option<(DocumentSymbol, Option<Seq<char>>)>,
) -> bool {
    match (r, found) {
        (Some(e), Some((sym, parent))) => entry_of_symbol(e, sym, parent),
        (None, None) => true,
        _ => false,
    }
}

fn entry_from_symbol(sym: &DocumentSymbol, parent_name: Option<&str>) -> (r: SymbolEntry)
    ensures
        entry_of_symbol(r, *sym, name_text(parent_name)),
{
    SymbolEntry {
        name: sym.name.clone(),
        kind: sym.kind,
        container_name: match parent_name {
            Some(p) => Some(p.to_owned()),
            None => None,
        },
        uri: String::new(),
        range: sym.range,
        selection_range: sym.selection_range,
    }
}

fn search_tree(
    symbols: &[DocumentSymbol],
    name: &str,
    line: Option<u32>,
    parent_name: Option<&str>,
) -> (r: Option<SymbolEntry>)
    ensures
        search_result(r, tree_search(symbols@, name@, line, name_text(parent_name))),
    decreases symbols@,
{
    let n = symbols.len();
    let mut i: usize = 0;
    assert(symbols@.skip(0) =~= symbols@);
    while i < n
        invariant
            n == symbols@.len(),
            i <= n,
            tree_search(symbols@, name@, line, name_text(parent_name)) == tree_search(
                symbols@.skip(i as int),
                name@,
                line,
                name_text(parent_name),
            ),
        decreases n - i,
    {
        let sym = &symbols[i];
        assert(symbols@.skip(i as int)[0] == *sym);
        assert(symbols@.skip(i as int).drop_first() =~= symbols@.skip(i + 1));
        let hit = match line {
            Some(l) => equals(sym.name.as_str(), name) && sym.range.start.line <= l
                && l <= sym.range.end.line,
            None => equals(sym.name.as_str(), name),
        };
        if hit {
            return Some(entry_from_symbol(sym, parent_name));
        }
        if let Some(children) = &sym.children {
            proof {
                assert(decreases_to!(symbols@ => symbols@[i as int]));
            }
            if let Some(found) = search_tree(children.as_slice(), name, line, Some(sym.name.as_str())) {
                return Some(found);
            }
        }
        i = i + 1;
    }
    None
}

/// Searches a symbol tree for a symbol named `name` whose range covers `line`, parents before
/// children; the parent's name becomes the container of the result.
pub fn find_in_doc_symbols(
    symbols: &[DocumentSymbol],
    name: &str,
    line: u32,
    parent_name: Option<&str>,
) -> (r: Option<SymbolEntry>)
    ensures
        search_result(r, tree_search(symbols@, name@, Some(line), name_text(parent_name))),
{
    search_tree(symbols, name, Some(line), parent_name)
}

/// Searches a symbol tree for a symbol named `name`, parents before children; the parent's
/// name becomes the container of the result.
pub fn find_by_name_in_doc_symbols(
    symbols: &[DocumentSymbol],
    name: &str,
    parent_name: Option<&str>,
) -> (r: Option<SymbolEntry>)
    ensures
        search_result(r, tree_search(symbols@, name@, None, name_text(parent_name))),
{
    search_tree(symbols, name, None, parent_name)
}


// ---------------------------------------------------------------------------
// Workspace paths
// ---------------------------------------------------------------------------

/// A file named by the user as a URI: kept when it already is a `file://` URI, otherwise taken
/// relative to the workspace root.
pub open spec fn uri_in_workspace(root_uri: Seq<char>, path: Seq<char>) -> Seq<char> {
    if is_prefix_of("file://"@, path) {
        path
    } else {
        trim_end_char(root_uri, '/') + "/"@ + path
    }
}

/// The URI of a file named by the user, relative to the workspace root unless it already is a
/// `file://` URI.
pub fn workspace_uri(root_uri: &str, path: &str) -> (r: String)
    ensures
        r@ == uri_in_workspace(root_uri@, path@),
{
    if starts_with(path, "file://") {
        path.to_owned()
    } else {
        let mut r = trim_end_matches(root_uri, '/');
        push_str(&mut r, "/");
        push_str(&mut r, path);
        r
    }
}

// ---------------------------------------------------------------------------
// diagnose, map, unused
// ---------------------------------------------------------------------------

/// Every diagnostic message of every file can be summarized.
pub open spec fn files_cut_cleanly(files: Seq<(Seq<char>, Seq<Diagnostic>)>) -> bool {
    forall|i: int| 0 <= i < files.len() ==> messages_cut_cleanly(#[trigger] files[i].1)
}

/// Whether every diagnostic message of the model can be summarized.
pub fn diagnostics_are_safe(model: &RustModel) -> (r: bool)
    ensures
        r == files_cut_cleanly(model.diagnostics.files()),
{
    let ghost fs = model.diagnostics.files();
    let n = model.diagnostics.len();
    let mut i: usize = 0;
    while i < n
        invariant
            n == fs.len(),
            fs == model.diagnostics.files(),
            i <= n,
            forall|j: int| 0 <= j < i ==> messages_cut_cleanly(#[trigger] fs[j].1),
        decreases n - i,
    {
        let (_, diags) = model.diagnostics.entry(i);
        if !messages_are_safe(diags.as_slice()) {
            assert(!messages_cut_cleanly(fs[i as int].1));
            return false;
        }
        i = i + 1;
    }
    true
}

/// Index of the first file whose URI is `uri` or ends with `path`.
pub open spec fn first_file_matching(
    files: Seq<(Seq<char>, Seq<Diagnostic>)>,
    uri: Seq<char>,
    path: Seq<char>,
) -> Option<int>
    decreases files.len(),
{
    if files.len() == 0 {
        None
    } else if files[0].0 == uri || is_suffix_of(path, files[0].0) {
        Some(0)
    } else {
        match first_file_matching(files.drop_first(), uri, path) {
            Some(i) => Some(i + 1),
            None => None,
        }
    }
}

/// Answer of `diagnose`: for a path, the diagnostics of the first file that is it or ends with
/// it (or a clean report); without one, the totals and every file's diagnostics.
pub open spec fn diagnose_text(
    root_uri: Seq<char>,
    files: Seq<(Seq<char>, Seq<Diagnostic>)>,
    positionals: Seq<Seq<char>>,
) -> Seq<char> {
    if positionals.len() > 0 {
        let path = positionals[0];
        let uri = uri_in_workspace(root_uri, path);
        match first_file_matching(files, uri, path) {
            Some(i) => diagnostics_text(files[i].0, files[i].1),
            None => diagnostics_text(uri, seq![]),
        }
    } else if files.len() == 0 {
        "Workspace: clean — no diagnostics."@
    } else {
        join_with_text(
            seq![
                "Workspace diagnostics: "@ + decimal(
                    files_severity_count(files, DiagnosticSeverity::Error),
                ) + " errors, "@ + decimal(files_severity_count(files, DiagnosticSeverity::Warning))
                    + " warnings"@,
            ] + files.map_values(|f: (Seq<char>, Seq<Diagnostic>)| diagnostics_text(f.0, f.1)),
            "\n\n"@,
        )
    }
}

/// What `diagnose` needs to summarize its messages: for a path, every message of the file it
/// reports; for the workspace, every message, with a total that fits a `usize`.
pub open spec fn diagnose_cuts_cleanly(
    root_uri: Seq<char>,
    files: Seq<(Seq<char>, Seq<Diagnostic>)>,
    positionals: Seq<Seq<char>>,
) -> bool {
    if positionals.len() > 0 {
        match first_file_matching(files, uri_in_workspace(root_uri, positionals[0]), positionals[0]) {
            Some(i) => messages_cut_cleanly(files[i].1),
            None => true,
        }
    } else {
        files_cut_cleanly(files) && files_total(files) <= usize::MAX
    }
}

fn find_diagnosed_file(model: &RustModel, uri: &str, path: &str) -> (r: Option<usize>)
    ensures
        match r {
            Some(i) => first_file_matching(model.diagnostics.files(), uri@, path@) == Some(i as int)
                && i < model.diagnostics.files().len(),
            None => first_file_matching(model.diagnostics.files(), uri@, path@) is None,
        },
{
    let ghost fs = model.diagnostics.files();
    let n = model.diagnostics.len();
    let mut i: usize = 0;
    assert(fs.skip(0) =~= fs);
    while i < n
        invariant
            n == fs.len(),
            fs == model.diagnostics.files(),
            i <= n,
            first_file_matching(fs, uri@, path@) == match first_file_matching(
                fs.skip(i as int),
                uri@,
                path@,
            ) {
                Some(j) => Some(j + i),
                None => None,
            },
        decreases n - i,
    {
        let (diag_uri, _) = model.diagnostics.entry(i);
        assert(fs.skip(i as int)[0] == fs[i as int]);
        assert(fs.skip(i as int).drop_first() =~= fs.skip(i + 1));
        if equals(diag_uri.as_str(), uri) || ends_with(diag_uri.as_str(), path) {
            return Some(i);
        }
        i = i + 1;
    }
    assert(fs.skip(n as int) =~= Seq::<(Seq<char>, Seq<Diagnostic>)>::empty());
    None
}

/// Whether `diagnose` can summarize every message it would report.
pub fn diagnose_is_safe(model: &RustModel, positionals: &[String]) -> (r: bool)
    ensures
        r == diagnose_cuts_cleanly(model.root_uri@, model.diagnostics.files(), texts(positionals@)),
{
    if positionals.len() > 0 {
        let path = positionals[0].as_str();
        assert(texts(positionals@)[0] == path@);
        let uri = workspace_uri(model.root_uri.as_str(), path);
        match find_diagnosed_file(model, uri.as_str(), path) {
            Some(i) => {
                let (_, diags) = model.diagnostics.entry(i);
                messages_are_safe(diags.as_slice())
            },
            None => true,
        }
    } else {
        diagnostics_are_safe(model) && model.diagnostic_total_fits()
    }
}

/// Reports the diagnostics of one file, or of the whole workspace.
pub fn handle_diagnose(model: &RustModel, positionals: &[String]) -> (r: String)
    requires
        diagnose_cuts_cleanly(model.root_uri@, model.diagnostics.files(), texts(positionals@)),
    ensures
        r@ == diagnose_text(model.root_uri@, model.diagnostics.files(), texts(positionals@)),
{
    let ghost fs = model.diagnostics.files();
    let n = model.diagnostics.len();
    if positionals.len() > 0 {
        let path = positionals[0].as_str();
        let uri = workspace_uri(model.root_uri.as_str(), path);
        assert(texts(positionals@)[0] == path@);
        let mut i: usize = 0;
        assert(fs.skip(0) =~= fs);
        while i < n
            invariant
                n == fs.len(),
                fs == model.diagnostics.files(),
                diagnose_cuts_cleanly(model.root_uri@, fs, texts(positionals@)),
                i <= n,
                positionals@.len() > 0,
                texts(positionals@)[0] == path@,
                uri@ == uri_in_workspace(model.root_uri@, path@),
                first_file_matching(fs, uri@, path@) == match first_file_matching(
                    fs.skip(i as int),
                    uri@,
                    path@,
                ) {
                    Some(j) => Some(j + i),
                    None => None,
                },
            decreases n - i,
        {
            let (diag_uri, diags) = model.diagnostics.entry(i);
            assert(fs.skip(i as int)[0] == fs[i as int]);
            assert(fs.skip(i as int).drop_first() =~= fs.skip(i + 1));
            if equals(diag_uri.as_str(), uri.as_str()) || ends_with(diag_uri.as_str(), path) {
                assert(messages_cut_cleanly(fs[i as int].1));
                assert(first_file_matching(fs.skip(i as int), uri@, path@) == Some(0int));
                assert(first_file_matching(fs, uri@, path@) == Some(i as int));
                return format_diagnostics(diag_uri.as_str(), diags.as_slice());
            }
            i = i + 1;
        }
        let empty: Vec<Diagnostic> = Vec::new();
        assert(messages_cut_cleanly(empty@));
        return format_diagnostics(uri.as_str(), empty.as_slice());
    }
    if n == 0 {
        let mut r = String::new();
        push_str(&mut r, "Workspace: clean — no diagnostics.");
        return r;
    }
    let (errors, warnings) = model.total_diagnostics();
    let mut head = String::new();
    push_str(&mut head, "Workspace diagnostics: ");
    push_decimal(&mut head, errors as u64);
    push_str(&mut head, " errors, ");
    push_decimal(&mut head, warnings as u64);
    push_str(&mut head, " warnings");
    let ghost h = head@;
    let mut parts: Vec<String> = Vec::new();
    parts.push(head);
    let mut i: usize = 0;
    while i < n
        invariant
            n == fs.len(),
            fs == model.diagnostics.files(),
            files_cut_cleanly(fs),
            i <= n,
            texts(parts@) =~= seq![h] + fs.take(i as int).map_values(
                |f: (Seq<char>, Seq<Diagnostic>)| diagnostics_text(f.0, f.1),
            ),
        decreases n - i,
    {
        let (uri, diags) = model.diagnostics.entry(i);
        assert(messages_cut_cleanly(fs[i as int].1));
        let text = format_diagnostics(uri.as_str(), diags.as_slice());
        let ghost prev = texts(parts@);
        parts.push(text);
        assert(texts(parts@) =~= prev.push(diagnostics_text(fs[i as int].0, fs[i as int].1)));
        assert(fs.take(i + 1).map_values(|f: (Seq<char>, Seq<Diagnostic>)| diagnostics_text(f.0, f.1))
            =~= fs.take(i as int).map_values(
            |f: (Seq<char>, Seq<Diagnostic>)| diagnostics_text(f.0, f.1),
        ).push(diagnostics_text(fs[i as int].0, fs[i as int].1)));
        i = i + 1;
    }
    assert(fs.take(n as int) =~= fs);
    join_with(&parts, "\n\n")
}

/// Summarizes the workspace: root, Rust file count, indexed symbols and diagnostic totals.
pub fn handle_map(model: &RustModel) -> (r: String)
    requires
        files_total(model.diagnostics.files()) <= usize::MAX,
    ensures
        r@ == workspace_map_text(
            model.root_uri@,
            model.rs_file_count as nat,
            model.symbol_index@.len(),
            files_severity_count(model.diagnostics.files(), DiagnosticSeverity::Error),
            files_severity_count(model.diagnostics.files(), DiagnosticSeverity::Warning),
        ),
{
    let (errors, warnings) = model.total_diagnostics();
    format_workspace_map(
        model.root_uri.as_str(),
        model.rs_file_count,
        model.symbol_index.size(),
        errors,
        warnings,
    )
}

/// The message phrases that mark a diagnostic as an unused-code finding.
pub open spec fn unused_phrases() -> Seq<Seq<char>> {
    seq!["unused"@, "never read"@, "never constructed"@, "never used"@, "dead_code"@]
}

/// The lower-cased message contains one of the unused-code phrases.
pub open spec fn is_unused_message(message: Seq<char>) -> bool {
    exists|k: int|
        0 <= k < unused_phrases().len() && contains_text(
            lower_text(message),
            #[trigger] unused_phrases()[k],
        )
}

fn unused_message(message: &str) -> (r: bool)
    ensures
        r == is_unused_message(message@),
{
    let lower = to_lowercase(message);
    let l = lower.as_str();
    let r = contains(l, "unused") || contains(l, "never read") || contains(l, "never constructed")
        || contains(l, "never used") || contains(l, "dead_code");
    assert(r == is_unused_message(message@)) by {
        if r {
            if contains_text(l@, "unused"@) {
                assert(contains_text(lower_text(message@), unused_phrases()[0]));
            } else if contains_text(l@, "never read"@) {
                assert(contains_text(lower_text(message@), unused_phrases()[1]));
            } else if contains_text(l@, "never constructed"@) {
                assert(contains_text(lower_text(message@), unused_phrases()[2]));
            } else if contains_text(l@, "never used"@) {
                assert(contains_text(lower_text(message@), unused_phrases()[3]));
            } else {
                assert(contains_text(lower_text(message@), unused_phrases()[4]));
            }
        }
    }
    r
}

/// The unused-code findings of one file's diagnostics, in order.
pub open spec fn file_findings(uri: Seq<char>, ds: Seq<Diagnostic>) -> Seq<(Seq<char>, Diagnostic)>
    decreases ds.len(),
{
    if ds.len() == 0 {
        seq![]
    } else if is_unused_message(ds.last().message@) {
        file_findings(uri, ds.drop_last()).push((uri, ds.last()))
    } else {
        file_findings(uri, ds.drop_last())
    }
}

/// The unused-code findings of every file that passes the filter, file by file.
pub open spec fn workspace_findings(
    files: Seq<(Seq<char>, Seq<Diagnostic>)>,
    filter: Option<Seq<char>>,
) -> Seq<(Seq<char>, Diagnostic)>
    decreases files.len(),
{
    if files.len() == 0 {
        seq![]
    } else {
        let f = files.last();
        let rest = workspace_findings(files.drop_last(), filter);
        match filter {
            Some(v) => if contains_text(f.0, v) {
                rest + file_findings(f.0, f.1)
            } else {
                rest
            },
            None => rest + file_findings(f.0, f.1),
        }
    }
}

/// `a` comes before `b`: by file, then by line.
pub open spec fn finding_before(a: (Seq<char>, Diagnostic), b: (Seq<char>, Diagnostic)) -> bool {
    text_less(a.0, b.0) || (a.0 == b.0 && a.1.range.start.line < b.1.range.start.line)
}

/// Where `x` enters a list kept sorted by file and line: after every element that does not
/// come after it.
pub open spec fn ascending_slot(sorted: Seq<(Seq<char>, Diagnostic)>, x: (Seq<char>, Diagnostic)) -> nat
    decreases sorted.len(),
{
    if sorted.len() == 0 {
        0
    } else if finding_before(x, sorted[0]) {
        0
    } else {
        1 + ascending_slot(sorted.drop_first(), x)
    }
}

/// The findings sorted by file and line, ties kept in their order (a stable sort).
pub open spec fn sort_findings(s: Seq<(Seq<char>, Diagnostic)>) -> Seq<(Seq<char>, Diagnostic)>
    decreases s.len(),
{
    if s.len() == 0 {
        s
    } else {
        let p = sort_findings(s.drop_last());
        p.insert(ascending_slot(p, s.last()) as int, s.last())
    }
}

proof fn lemma_ascending_slot_bound(sorted: Seq<(Seq<char>, Diagnostic)>, x: (Seq<char>, Diagnostic))
    ensures
        ascending_slot(sorted, x) <= sorted.len(),
    decreases sorted.len(),
{
    if sorted.len() > 0 && !finding_before(x, sorted[0]) {
        lemma_ascending_slot_bound(sorted.drop_first(), x);
    }
}

proof fn lemma_sort_findings_len(s: Seq<(Seq<char>, Diagnostic)>)
    ensures
        sort_findings(s).len() == s.len(),
    decreases s.len(),
{
    if s.len() > 0 {
        lemma_sort_findings_len(s.drop_last());
        lemma_ascending_slot_bound(sort_findings(s.drop_last()), s.last());
    }
}

fn finding_comes_before(a: (&str, &Diagnostic), b: (&str, &Diagnostic)) -> (r: bool)
    ensures
        r == finding_before((a.0@, *a.1), (b.0@, *b.1)),
{
    less_than(a.0, b.0) || (equals(a.0, b.0) && a.1.range.start.line < b.1.range.start.line)
}

proof fn lemma_file_findings_clean(uri: Seq<char>, ds: Seq<Diagnostic>)
    requires
        messages_cut_cleanly(ds),
    ensures
        findings_cut_cleanly(file_findings(uri, ds)),
    decreases ds.len(),
{
    if ds.len() > 0 {
        assert(messages_cut_cleanly(ds.drop_last()));
        lemma_file_findings_clean(uri, ds.drop_last());
        assert(summary_cuts_cleanly(ds[ds.len() - 1].message@));
    }
}

proof fn lemma_sort_findings_clean(s: Seq<(Seq<char>, Diagnostic)>)
    requires
        findings_cut_cleanly(s),
    ensures
        findings_cut_cleanly(sort_findings(s)),
    decreases s.len(),
{
    if s.len() > 0 {
        assert(findings_cut_cleanly(s.drop_last()));
        lemma_sort_findings_clean(s.drop_last());
        let p = sort_findings(s.drop_last());
        lemma_sort_findings_len(s.drop_last());
        lemma_ascending_slot_bound(p, s.last());
        let q = p.insert(ascending_slot(p, s.last()) as int, s.last());
        assert forall|i: int| 0 <= i < q.len() implies summary_cuts_cleanly(#[trigger] q[i].1.message@) by {
            let k = ascending_slot(p, s.last()) as int;
            if i < k {
                assert(q[i] == p[i]);
            } else if i > k {
                assert(q[i] == p[i - 1]);
            } else {
                assert(q[i] == s[s.len() - 1]);
            }
        }
    }
}

/// The unused-code findings `unused` reports, before sorting: those of the files that contain
/// the `@file:` value, or of every file.
pub open spec fn unused_findings(
    files: Seq<(Seq<char>, Seq<Diagnostic>)>,
    selectors: Seq<Seq<char>>,
) -> Seq<(Seq<char>, Diagnostic)> {
    workspace_findings(files, first_selector_value(selectors, SelectorType::File))
}

/// Answer of `unused`: the unused-code findings of the workspace (or of the files that contain
/// the `@file:` value), sorted by file and line.
pub open spec fn unused_answer(
    files: Seq<(Seq<char>, Seq<Diagnostic>)>,
    selectors: Seq<Seq<char>>,
) -> Seq<char> {
    unused_report(
        sort_findings(workspace_findings(files, first_selector_value(selectors, SelectorType::File))),
    )
}

fn collect_unused<'a>(model: &'a RustModel, filter: &Option<String>) -> (items: Vec<(&'a str, &'a Diagnostic)>)
    ensures
        finding_pairs(items@) == workspace_findings(model.diagnostics.files(), string_text(*filter)),
{
    let ghost fs = model.diagnostics.files();
    let ghost filt = string_text(*filter);
    let mut items: Vec<(&str, &Diagnostic)> = Vec::new();
    let n = model.diagnostics.len();
    let mut i: usize = 0;
    while i < n
        invariant
            n == fs.len(),
            fs == model.diagnostics.files(),
            i <= n,
            filt == string_text(*filter),
            finding_pairs(items@) == workspace_findings(fs.take(i as int), filt),
        decreases n - i,
    {
        let (uri, diags) = model.diagnostics.entry(i);
        assert(fs.take(i + 1).drop_last() =~= fs.take(i as int));
        assert(fs.take(i + 1).last() == fs[i as int]);
        let keep = match filter {
            Some(v) => contains(uri.as_str(), v.as_str()),
            None => true,
        };
        if keep {
            let ghost before = finding_pairs(items@);
            let mut k: usize = 0;
            while k < diags.len()
                invariant
                    i < n,
                    n == fs.len(),
                    k <= diags@.len(),
                    diags@ == fs[i as int].1,
                    uri@ == fs[i as int].0,
                    finding_pairs(items@) == before + file_findings(uri@, diags@.take(k as int)),
                decreases diags@.len() - k,
            {
                assert(diags@.take(k + 1).drop_last() =~= diags@.take(k as int));
                let d = &diags[k];
                if unused_message(d.message.as_str()) {
                    let ghost prev = finding_pairs(items@);
                    items.push((uri.as_str(), d));
                    assert(finding_pairs(items@) =~= prev.push((uri@, *d)));
                }
                k = k + 1;
            }
            assert(diags@.take(diags@.len() as int) =~= diags@);
        }
        i = i + 1;
    }
    assert(fs.take(n as int) =~= fs);
    items
}

/// Whether `unused` can summarize every finding it would report.
pub fn unused_is_safe(model: &RustModel, selectors: &[String]) -> (r: bool)
    ensures
        r == findings_cut_cleanly(unused_findings(model.diagnostics.files(), texts(selectors@))),
{
    let filter = selector_value(selectors, SelectorType::File);
    let items = collect_unused(model, &filter);
    let ghost all = finding_pairs(items@);
    assert(all == unused_findings(model.diagnostics.files(), texts(selectors@)));
    let mut k: usize = 0;
    while k < items.len()
        invariant
            k <= items@.len(),
            all == finding_pairs(items@),
            all == unused_findings(model.diagnostics.files(), texts(selectors@)),
            forall|j: int| 0 <= j < k ==> summary_cuts_cleanly(#[trigger] all[j].1.message@),
        decreases items@.len() - k,
    {
        assert(all[k as int] == (items@[k as int].0@, *items@[k as int].1));
        if !summary_is_safe(items[k].1.message.as_str()) {
            assert(!summary_cuts_cleanly(all[k as int].1.message@));
            return false;
        }
        k = k + 1;
    }
    true
}

/// Lists the unused-code diagnostics of the workspace, optionally only of the files that
/// contain the value of an `@file:` selector, sorted by file then line.
pub fn handle_unused(model: &RustModel, selectors: &[String]) -> (r: String)
    requires
        findings_cut_cleanly(unused_findings(model.diagnostics.files(), texts(selectors@))),
    ensures
        r@ == unused_answer(model.diagnostics.files(), texts(selectors@)),
{
    let ghost fs = model.diagnostics.files();
    let filter = selector_value(selectors, SelectorType::File);
    let ghost filt = string_text(filter);
    let items = collect_unused(model, &filter);
    // stable sort by file, then line
    let mut sorted: Vec<(&str, &Diagnostic)> = Vec::new();
    let ghost all = finding_pairs(items@);
    let m = items.len();
    let mut k: usize = 0;
    while k < m
        invariant
            m == items@.len(),
            k <= m,
            all == finding_pairs(items@),
            finding_pairs(sorted@) == sort_findings(all.take(k as int)),
        decreases m - k,
    {
        let x = items[k];
        let ghost xs = (x.0@, *x.1);
        assert(all[k as int] == xs);
        let ghost sp = finding_pairs(sorted@);
        let mut j: usize = 0;
        assert(sp.skip(0) =~= sp);
        while j < sorted.len() && !finding_comes_before(x, sorted[j])
            invariant
                j <= sorted@.len(),
                sp == finding_pairs(sorted@),
                xs == (x.0@, *x.1),
                ascending_slot(sp, xs) == j + ascending_slot(sp.skip(j as int), xs),
            decreases sorted@.len() - j,
        {
            assert(sp[j as int] == (sorted@[j as int].0@, *sorted@[j as int].1));
            assert(sp.skip(j as int)[0] == sp[j as int]);
            assert(sp.skip(j as int).drop_first() =~= sp.skip(j + 1));
            j = j + 1;
        }
        proof {
            if j < sorted@.len() {
                assert(sp[j as int] == (sorted@[j as int].0@, *sorted@[j as int].1));
                assert(sp.skip(j as int)[0] == sp[j as int]);
            }
            lemma_sort_findings_len(all.take(k as int));
            assert(all.take(k + 1).drop_last() =~= all.take(k as int));
            assert(all.take(k + 1).last() == xs);
        }
        sorted.insert(j, x);
        assert(finding_pairs(sorted@) =~= sp.insert(j as int, xs));
        k = k + 1;
    }
    assert(all.take(m as int) =~= all);
    proof {
        lemma_sort_findings_clean(all);
    }
    format_unused(sorted.as_slice())
}

// ---------------------------------------------------------------------------
// Laws
// ---------------------------------------------------------------------------

/// No finding comes before one listed ahead of it.
pub open spec fn ascending(s: Seq<(Seq<char>, Diagnostic)>) -> bool {
    forall|i: int, j: int| 0 <= i < j < s.len() ==> !finding_before(#[trigger] s[j], #[trigger] s[i])
}

proof fn lemma_finding_order(a: (Seq<char>, Diagnostic), b: (Seq<char>, Diagnostic), c: (Seq<char>, Diagnostic))
    ensures
        finding_before(a, b) ==> !finding_before(b, a),
        finding_before(a, b) && !finding_before(c, b) ==> finding_before(a, c),
{
    lemma_text_less_order(a.0, b.0, c.0);
    lemma_text_less_order(b.0, a.0, c.0);
    lemma_text_less_order(c.0, b.0, a.0);
    lemma_text_less_order(b.0, c.0, a.0);
    lemma_text_less_order(a.0, c.0, b.0);
}

proof fn lemma_ascending_slot_splits(p: Seq<(Seq<char>, Diagnostic)>, x: (Seq<char>, Diagnostic))
    ensures
        ascending_slot(p, x) <= p.len(),
        forall|i: int| 0 <= i < ascending_slot(p, x) ==> !finding_before(x, #[trigger] p[i]),
        ascending_slot(p, x) < p.len() ==> finding_before(x, p[ascending_slot(p, x) as int]),
    decreases p.len(),
{
    if p.len() > 0 && !finding_before(x, p[0]) {
        lemma_ascending_slot_splits(p.drop_first(), x);
        assert forall|i: int| 0 <= i < ascending_slot(p, x) implies !finding_before(
            x,
            #[trigger] p[i],
        ) by {
            if i > 0 {
                assert(p[i] == p.drop_first()[i - 1]);
            }
        }
    }
}

/// The unused-code report lists its findings by file, then by line, and holds every finding
/// found, each as often as it was found.
pub proof fn law_findings_sorted(s: Seq<(Seq<char>, Diagnostic)>)
    ensures
        ascending(sort_findings(s)),
        sort_findings(s).to_multiset() == s.to_multiset(),
    decreases s.len(),
{
    broadcast use vstd::seq_lib::group_to_multiset_ensures;

    if s.len() > 0 {
        let p = sort_findings(s.drop_last());
        let x = s.last();
        law_findings_sorted(s.drop_last());
        lemma_ascending_slot_splits(p, x);
        let k = ascending_slot(p, x) as int;
        let q = p.insert(k, x);
        assert(sort_findings(s) == q);
        assert forall|i: int, j: int| 0 <= i < j < q.len() implies !finding_before(
            #[trigger] q[j],
            #[trigger] q[i],
        ) by {
            if j < k {
                assert(q[i] == p[i] && q[j] == p[j]);
            } else if j == k {
                assert(q[i] == p[i]);
            } else if i < k {
                assert(q[i] == p[i] && q[j] == p[j - 1]);
            } else if i == k {
                assert(q[j] == p[j - 1]);
                assert(finding_before(x, p[k]));
                if j - 1 > k {
                    assert(!finding_before(p[j - 1], p[k]));
                }
                lemma_finding_order(x, p[k], p[j - 1]);
                lemma_finding_order(x, p[j - 1], p[k]);
            } else {
                assert(q[i] == p[i - 1] && q[j] == p[j - 1]);
            }
        }
        assert(q.remove(k) =~= p);
        assert(q[k] == x);
        assert(q.to_multiset().remove(x) =~= p.to_multiset());
        assert(q.to_multiset().count(x) > 0) by {
            assert(q.contains(x));
        }
        assert(q.to_multiset() =~= p.to_multiset().insert(x));
        assert(s.drop_last().push(x) =~= s);
    }
}

/// Two findings are at the same place: the same file and the same line.
pub open spec fn same_place(a: (Seq<char>, Diagnostic), b: (Seq<char>, Diagnostic)) -> bool {
    a.0 == b.0 && a.1.range.start.line == b.1.range.start.line
}

/// The sort is stable: the findings at any one place keep the order in which they were found.
pub proof fn law_findings_sort_stable(s: Seq<(Seq<char>, Diagnostic)>, place: (Seq<char>, Diagnostic))
    ensures
        sort_findings(s).filter(|e: (Seq<char>, Diagnostic)| same_place(e, place)) == s.filter(
            |e: (Seq<char>, Diagnostic)| same_place(e, place),
        ),
    decreases s.len(),
{
    let pred = |e: (Seq<char>, Diagnostic)| same_place(e, place);
    if s.len() > 0 {
        let sp = s.drop_last();
        let x = s.last();
        let p = sort_findings(sp);
        law_findings_sorted(sp);
        law_findings_sort_stable(sp, place);
        lemma_ascending_slot_splits(p, x);
        let k = ascending_slot(p, x) as int;
        let q = p.insert(k, x);
        assert(sort_findings(s) == q);
        assert(s =~= sp.push(x));
        assert(s.filter(pred) == sp.filter(pred) + if pred(x) {
            seq![x]
        } else {
            seq![]
        }) by {
            reveal(Seq::filter);
            assert(s.drop_last() == sp);
            if pred(x) {
                assert(sp.filter(pred).push(x) =~= sp.filter(pred) + seq![x]);
            } else {
                assert(sp.filter(pred) =~= sp.filter(pred) + Seq::<(Seq<char>, Diagnostic)>::empty());
            }
        }
        assert(q =~= p.take(k) + seq![x] + p.skip(k));
        assert(p =~= p.take(k) + p.skip(k));
        Seq::filter_distributes_over_add(p.take(k) + seq![x], p.skip(k), pred);
        Seq::filter_distributes_over_add(p.take(k), seq![x], pred);
        Seq::filter_distributes_over_add(p.take(k), p.skip(k), pred);
        assert(seq![x].filter(pred) == if pred(x) {
            seq![x]
        } else {
            seq![]
        }) by {
            reveal_with_fuel(Seq::filter, 2);
            assert(seq![x].drop_last() =~= Seq::<(Seq<char>, Diagnostic)>::empty());
            if pred(x) {
                assert(Seq::<(Seq<char>, Diagnostic)>::empty().push(x) =~= seq![x]);
            }
        }
        if pred(x) {
            assert(p.skip(k).filter(pred).len() == 0) by {
                let t = p.skip(k);
                assert forall|j: int| 0 <= j < t.len() implies !pred(#[trigger] t[j]) by {
                    assert(t[j] == p[k + j]);
                    if j > 0 {
                        assert(!finding_before(p[k + j], p[k]));
                        lemma_finding_order(x, p[k], p[k + j]);
                    }
                    lemma_text_less_order(x.0, x.0, x.0);
                }
                t.lemma_all_neg_filter_empty(pred);
            }
        }
    }
}

/// The unused-code phrases a lower-cased message may contain.
pub open spec fn mentions_unused_code(lower: Seq<char>) -> bool {
    ||| contains_text(lower, "unused"@)
    ||| contains_text(lower, "never read"@)
    ||| contains_text(lower, "never constructed"@)
    ||| contains_text(lower, "never used"@)
    ||| contains_text(lower, "dead_code"@)
}

/// A diagnostic message marks unused code exactly when, lower-cased, it contains "unused",
/// "never read", "never constructed", "never used" or "dead_code".
pub proof fn law_unused_message_phrases(message: Seq<char>)
    ensures
        is_unused_message(message) <==> mentions_unused_code(lower_text(message)),
{
    let l = lower_text(message);
    if contains_text(l, "unused"@) {
        assert(contains_text(l, unused_phrases()[0]));
    } else if contains_text(l, "never read"@) {
        assert(contains_text(l, unused_phrases()[1]));
    } else if contains_text(l, "never constructed"@) {
        assert(contains_text(l, unused_phrases()[2]));
    } else if contains_text(l, "never used"@) {
        assert(contains_text(l, unused_phrases()[3]));
    } else if contains_text(l, "dead_code"@) {
        assert(contains_text(l, unused_phrases()[4]));
    }
    if is_unused_message(message) {
        let k = choose|k: int| 0 <= k < unused_phrases().len() && contains_text(l, #[trigger] unused_phrases()[k]);
        assert(k == 0 || k == 1 || k == 2 || k == 3 || k == 4);
    }
}

proof fn lemma_file_findings_keep(uri: Seq<char>, ds: Seq<Diagnostic>, j: int)
    requires
        0 <= j < ds.len(),
        is_unused_message(ds[j].message@),
    ensures
        file_findings(uri, ds).contains((uri, ds[j])),
    decreases ds.len(),
{
    if j == ds.len() - 1 {
        let r = file_findings(uri, ds);
        assert(r[r.len() - 1] == (uri, ds[j]));
    } else {
        lemma_file_findings_keep(uri, ds.drop_last(), j);
        assert(ds.drop_last()[j] == ds[j]);
        let prev = file_findings(uri, ds.drop_last());
        let m = choose|m: int| 0 <= m < prev.len() && prev[m] == (uri, ds[j]);
        if is_unused_message(ds.last().message@) {
            assert(file_findings(uri, ds)[m] == (uri, ds[j]));
        }
    }
}

/// The file passes the `@file:` filter of `unused`, if there is one.
pub open spec fn passes_file_filter(uri: Seq<char>, filter: Option<Seq<char>>) -> bool {
    match filter {
        Some(v) => contains_text(uri, v),
        None => true,
    }
}

proof fn lemma_workspace_findings_keep(
    files: Seq<(Seq<char>, Seq<Diagnostic>)>,
    filter: Option<Seq<char>>,
    i: int,
    j: int,
)
    requires
        0 <= i < files.len(),
        0 <= j < files[i].1.len(),
        is_unused_message(files[i].1[j].message@),
        passes_file_filter(files[i].0, filter),
    ensures
        workspace_findings(files, filter).contains((files[i].0, files[i].1[j])),
    decreases files.len(),
{
    let rest = workspace_findings(files.drop_last(), filter);
    let last = file_findings(files.last().0, files.last().1);
    if i == files.len() - 1 {
        lemma_file_findings_keep(files[i].0, files[i].1, j);
        let m = choose|m: int| 0 <= m < last.len() && last[m] == (files[i].0, files[i].1[j]);
        assert((rest + last)[rest.len() + m] == last[m]);
    } else {
        lemma_workspace_findings_keep(files.drop_last(), filter, i, j);
        assert(files.drop_last()[i] == files[i]);
        let m = choose|m: int| 0 <= m < rest.len() && rest[m] == (files[i].0, files[i].1[j]);
        if passes_file_filter(files.last().0, filter) {
            assert((rest + last)[m] == rest[m]);
        }
    }
}

proof fn lemma_file_findings_sound(uri: Seq<char>, ds: Seq<Diagnostic>, m: int)
    requires
        0 <= m < file_findings(uri, ds).len(),
    ensures
        file_findings(uri, ds)[m].0 == uri,
        is_unused_message(file_findings(uri, ds)[m].1.message@),
        ds.contains(file_findings(uri, ds)[m].1),
    decreases ds.len(),
{
    let prev = file_findings(uri, ds.drop_last());
    if m < prev.len() {
        lemma_file_findings_sound(uri, ds.drop_last(), m);
        if is_unused_message(ds.last().message@) {
            assert(file_findings(uri, ds)[m] == prev[m]);
        }
        let q = choose|q: int| 0 <= q < ds.drop_last().len() && ds.drop_last()[q] == prev[m].1;
        assert(ds[q] == prev[m].1);
    } else {
        assert(ds[ds.len() - 1] == ds.last());
    }
}

proof fn lemma_workspace_findings_sound(files: Seq<(Seq<char>, Seq<Diagnostic>)>, filter: Option<Seq<char>>, m: int)
    requires
        0 <= m < workspace_findings(files, filter).len(),
    ensures
        ({
            let f = workspace_findings(files, filter)[m];
            &&& passes_file_filter(f.0, filter)
            &&& is_unused_message(f.1.message@)
            &&& exists|i: int| 0 <= i < files.len() && (#[trigger] files[i]).0 == f.0 && files[i].1.contains(f.1)
        }),
    decreases files.len(),
{
    let rest = workspace_findings(files.drop_last(), filter);
    let f = workspace_findings(files, filter)[m];
    if m < rest.len() {
        lemma_workspace_findings_sound(files.drop_last(), filter, m);
        if passes_file_filter(files.last().0, filter) {
            assert(f == rest[m]);
        }
        let i = choose|i: int| 0 <= i < files.drop_last().len() && (#[trigger] files.drop_last()[i]).0 == rest[m].0 && files.drop_last()[i].1.contains(rest[m].1);
        assert(files[i] == files.drop_last()[i]);
    } else {
        let last = file_findings(files.last().0, files.last().1);
        assert(f == last[m - rest.len()]);
        lemma_file_findings_sound(files.last().0, files.last().1, m - rest.len());
        assert(files[files.len() - 1] == files.last());
    }
}

/// The findings of `unused` are exactly the diagnostics whose lower-cased message mentions
/// unused code, in the files that contain the `@file:` value (every file without one): each
/// such diagnostic is found under its file's URI, and each finding is one of them.
pub proof fn law_unused_findings_are_unused_diagnostics(
    files: Seq<(Seq<char>, Seq<Diagnostic>)>,
    selectors: Seq<Seq<char>>,
)
    ensures
        forall|i: int, j: int|
            0 <= i < files.len() && 0 <= j < files[i].1.len() && mentions_unused_code(
                lower_text((#[trigger] files[i].1[j]).message@),
            ) && passes_file_filter(files[i].0, first_selector_value(selectors, SelectorType::File))
                ==> unused_findings(files, selectors).contains((files[i].0, files[i].1[j])),
        forall|m: int|
            0 <= m < unused_findings(files, selectors).len() ==> {
                let f = #[trigger] unused_findings(files, selectors)[m];
                &&& passes_file_filter(f.0, first_selector_value(selectors, SelectorType::File))
                &&& mentions_unused_code(lower_text(f.1.message@))
                &&& exists|i: int| 0 <= i < files.len() && (#[trigger] files[i]).0 == f.0 && files[i].1.contains(f.1)
            },
{
    let filter = first_selector_value(selectors, SelectorType::File);
    assert forall|i: int, j: int|
        0 <= i < files.len() && 0 <= j < files[i].1.len() && mentions_unused_code(
            lower_text((#[trigger] files[i].1[j]).message@),
        ) && passes_file_filter(files[i].0, filter)
            implies unused_findings(files, selectors).contains((files[i].0, files[i].1[j])) by {
        law_unused_message_phrases(files[i].1[j].message@);
        lemma_workspace_findings_keep(files, filter, i, j);
    }
    assert forall|m: int| 0 <= m < unused_findings(files, selectors).len() implies {
        let f = #[trigger] unused_findings(files, selectors)[m];
        &&& passes_file_filter(f.0, filter)
        &&& mentions_unused_code(lower_text(f.1.message@))
        &&& exists|i: int| 0 <= i < files.len() && (#[trigger] files[i]).0 == f.0 && files[i].1.contains(f.1)
    } by {
        lemma_workspace_findings_sound(files, filter, m);
        law_unused_message_phrases(unused_findings(files, selectors)[m].1.message@);
    }
}

/// Without an `@file:` selector, every diagnostic whose lower-cased message mentions unused
/// code is an unused-code finding of `unused`, under its file's URI.
pub proof fn law_unused_diagnostic_is_found(
    files: Seq<(Seq<char>, Seq<Diagnostic>)>,
    selectors: Seq<Seq<char>>,
    i: int,
    j: int,
)
    requires
        first_selector_value(selectors, SelectorType::File) is None,
        0 <= i < files.len(),
        0 <= j < files[i].1.len(),
        mentions_unused_code(lower_text(files[i].1[j].message@)),
    ensures
        unused_findings(files, selectors).contains((files[i].0, files[i].1[j])),
{
    law_unused_message_phrases(files[i].1[j].message@);
    lemma_workspace_findings_keep(files, None, i, j);
}

/// The file `diagnose <path>` is about: its URI is the path's URI in the workspace, or ends
/// with the path.
pub open spec fn reported_for(root_uri: Seq<char>, path: Seq<char>, file_uri: Seq<char>) -> bool {
    file_uri == uri_in_workspace(root_uri, path) || is_suffix_of(path, file_uri)
}

proof fn lemma_first_file_matching_at(
    files: Seq<(Seq<char>, Seq<Diagnostic>)>,
    uri: Seq<char>,
    path: Seq<char>,
    k: int,
)
    requires
        0 <= k <= files.len(),
        k < files.len() ==> files[k].0 == uri || is_suffix_of(path, files[k].0),
        forall|j: int| 0 <= j < k ==> !(#[trigger] files[j].0 == uri || is_suffix_of(path, files[j].0)),
    ensures
        first_file_matching(files, uri, path) == if k < files.len() {
            Some(k)
        } else {
            None::<int>
        },
    decreases k,
{
    if k > 0 {
        let rest = files.drop_first();
        assert forall|j: int| 0 <= j < k - 1 implies !(#[trigger] rest[j].0 == uri || is_suffix_of(path, rest[j].0)) by {
            assert(rest[j] == files[j + 1]);
        }
        if k < files.len() {
            assert(rest[k - 1] == files[k]);
        }
        lemma_first_file_matching_at(rest, uri, path, k - 1);
        assert(!(files[0].0 == uri || is_suffix_of(path, files[0].0)));
    }
}

/// `diagnose <path>` reports the diagnostics of the first diagnosed file whose URI is the
/// path's URI in the workspace or ends with the path.
pub proof fn law_diagnose_reports_matching_file(
    root_uri: Seq<char>,
    files: Seq<(Seq<char>, Seq<Diagnostic>)>,
    positionals: Seq<Seq<char>>,
    k: int,
)
    requires
        positionals.len() > 0,
        0 <= k < files.len(),
        reported_for(root_uri, positionals[0], files[k].0),
        forall|j: int| 0 <= j < k ==> !reported_for(root_uri, positionals[0], #[trigger] files[j].0),
    ensures
        diagnose_text(root_uri, files, positionals) == diagnostics_text(files[k].0, files[k].1),
{
    let path = positionals[0];
    let uri = uri_in_workspace(root_uri, path);
    assert forall|j: int| 0 <= j < k implies !(#[trigger] files[j].0 == uri || is_suffix_of(path, files[j].0)) by {
        assert(!reported_for(root_uri, path, files[j].0));
    }
    lemma_first_file_matching_at(files, uri, path, k);
}

/// `diagnose <path>` reports the path's URI clean when no diagnosed file is that URI or ends
/// with the path.
pub proof fn law_diagnose_clean_without_match(
    root_uri: Seq<char>,
    files: Seq<(Seq<char>, Seq<Diagnostic>)>,
    positionals: Seq<Seq<char>>,
)
    requires
        positionals.len() > 0,
        forall|j: int| 0 <= j < files.len() ==> !reported_for(root_uri, positionals[0], #[trigger] files[j].0),
    ensures
        diagnose_text(root_uri, files, positionals) == diagnostics_text(
            uri_in_workspace(root_uri, positionals[0]),
            seq![],
        ),
{
    let path = positionals[0];
    let uri = uri_in_workspace(root_uri, path);
    assert forall|j: int| 0 <= j < files.len() implies !(#[trigger] files[j].0 == uri || is_suffix_of(path, files[j].0)) by {
        assert(!reported_for(root_uri, path, files[j].0));
    }
    lemma_first_file_matching_at(files, uri, path, files.len() as int);
}

} // verus!
