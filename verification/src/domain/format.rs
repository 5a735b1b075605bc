//! Output formatting for query and mutation results.
use crate::lsp::types::{
    kind_debug_name, kind_lower_name, CallHierarchyIncomingCall, CallHierarchyItem, CallHierarchyOutgoingCall, CodeAction,
    Diagnostic, DiagnosticSeverity, DocumentSymbol, Location, Range,
};
use crate::lsp::workspace_edit::{edit_count_sum, ApplyResult};
use crate::resolver::index::SymbolEntry;
use crate::text::{
    all_ascii_digits, is_prefix_of, chars_of, push_char, contains, contains_text, decimal, join_lines, join_newline,
    push_decimal, push_str, string_of_chars, strip_prefix, strip_prefix_text, texts, to_lowercase,
    trim_end_char, trim_end_matches, lower_text,
};
use vstd::prelude::*;
use vstd::string::*;

verus! {

// ---------------------------------------------------------------------------
// Shared pieces
// ---------------------------------------------------------------------------

/// A URI without its `file://` scheme, for display.
pub open spec fn short_uri_text(uri: Seq<char>) -> Seq<char> {
    match strip_prefix_text(uri, "file://"@) {
        Some(rest) => rest,
        None => uri,
    }
}

/// Strips the `file://` prefix of a URI for display.
fn short_uri(uri: &str) -> (r: String)
    ensures
        r@ == short_uri_text(uri@),
{
    match strip_prefix(uri, "file://") {
        Some(rest) => rest,
        None => uri.to_owned(),
    }
}

/// One-based rendering of a zero-based line or column.
pub open spec fn one_based(n: u32) -> Seq<char> {
    decimal(n as nat + 1)
}

fn push_one_based(s: &mut String, n: u32)
    ensures
        final(s)@ == old(s)@ + one_based(n),
{
    push_decimal(s, n as u64 + 1);
}

fn push_count(s: &mut String, n: usize)
    ensures
        final(s)@ == old(s)@ + decimal(n as nat),
{
    push_decimal(s, n as u64);
}

/// `"  <file> L<line>:<column>"` for a location.
pub open spec fn location_line(loc: Location) -> Seq<char> {
    "  "@ + short_uri_text(loc.uri@) + " L"@ + one_based(loc.range.start.line) + ":"@ + one_based(
        loc.range.start.character,
    )
}

fn location_line_exec(loc: &Location) -> (r: String)
    ensures
        r@ == location_line(*loc),
{
    let mut r = String::new();
    push_str(&mut r, "  ");
    push_str(&mut r, short_uri(loc.uri.as_str()).as_str());
    push_str(&mut r, " L");
    push_one_based(&mut r, loc.range.start.line);
    push_str(&mut r, ":");
    push_one_based(&mut r, loc.range.start.character);
    r
}

/// A header line followed by one line per location.
pub open spec fn location_lines(header: Seq<char>, locations: Seq<Location>) -> Seq<Seq<char>> {
    seq![header] + locations.map_values(|l: Location| location_line(l))
}

fn location_lines_exec(header: String, locations: &[Location]) -> (r: Vec<String>)
    ensures
        texts(r@) == location_lines(header@, locations@),
{
    let mut lines: Vec<String> = Vec::new();
    let ghost h = header@;
    lines.push(header);
    let n = locations.len();
    let mut i: usize = 0;
    while i < n
        invariant
            n == locations@.len(),
            i <= n,
            texts(lines@) =~= seq![h] + locations@.take(i as int).map_values(
                |l: Location| location_line(l),
            ),
        decreases n - i,
    {
        let line = location_line_exec(&locations[i]);
        let ghost prev = lines@;
        lines.push(line);
        assert(texts(lines@) =~= texts(prev).push(location_line(locations@[i as int])));
        assert(locations@.take(i + 1).map_values(|l: Location| location_line(l))
            =~= locations@.take(i as int).map_values(|l: Location| location_line(l)).push(
            location_line(locations@[i as int]),
        ));
        i = i + 1;
    }
    assert(locations@.take(n as int) =~= locations@);
    lines
}

// ---------------------------------------------------------------------------
// Navigation
// ---------------------------------------------------------------------------

/// Text of a list of locations under a description.
pub open spec fn navigation_text(locations: Seq<Location>, description: Seq<char>) -> Seq<char> {
    if locations.len() == 0 {
        "No "@ + description + " found."@
    } else {
        join_lines(
            location_lines(
                description + " ("@ + decimal(locations.len()) + "):"@,
                locations,
            ),
        )
    }
}

/// Lists locations under a description, or says that none was found.
pub fn format_navigation_result(locations: &[Location], description: &str) -> (r: String)
    ensures
        r@ == navigation_text(locations@, description@),
{
    if locations.len() == 0 {
        let mut r = String::new();
        push_str(&mut r, "No ");
        push_str(&mut r, description);
        push_str(&mut r, " found.");
        return r;
    }
    let mut header = String::new();
    push_str(&mut header, description);
    push_str(&mut header, " (");
    push_count(&mut header, locations.len());
    push_str(&mut header, "):");
    let lines = location_lines_exec(header, locations);
    join_newline(&lines)
}

/// Text of a definition site, with the source snippet when one is given.
pub open spec fn definition_text(uri: Seq<char>, range: Range, snippet: Option<Seq<char>>) -> Seq<
    char,
> {
    let head = "Definition: "@ + short_uri_text(uri) + " L"@ + one_based(range.start.line) + ":"@
        + one_based(range.start.character);
    match snippet {
        Some(s) => head + "\n\n"@ + s,
        None => head,
    }
}

/// Describes a definition site.
pub fn format_definition(uri: &str, range: &Range, source_snippet: Option<&str>) -> (r: String)
    ensures
        r@ == definition_text(
            uri@,
            *range,
            match source_snippet {
                Some(s) => Some(s@),
                None => None,
            },
        ),
{
    let mut r = String::new();
    push_str(&mut r, "Definition: ");
    push_str(&mut r, short_uri(uri).as_str());
    push_str(&mut r, " L");
    push_one_based(&mut r, range.start.line);
    push_str(&mut r, ":");
    push_one_based(&mut r, range.start.character);
    if let Some(snippet) = source_snippet {
        push_str(&mut r, "\n\n");
        push_str(&mut r, snippet);
    }
    r
}

/// Text of a list of implementation sites of `name`.
pub open spec fn implementations_text(name: Seq<char>, locations: Seq<Location>) -> Seq<char> {
    if locations.len() == 0 {
        "No implementations of '"@ + name + "'."@
    } else {
        join_lines(
            location_lines(
                "Implementations of '"@ + name + "' ("@ + decimal(locations.len()) + "):"@,
                locations,
            ),
        )
    }
}

/// Lists the implementations of `name`.
pub fn format_implementations(name: &str, locations: &[Location]) -> (r: String)
    ensures
        r@ == implementations_text(name@, locations@),
{
    if locations.len() == 0 {
        let mut r = String::new();
        push_str(&mut r, "No implementations of '");
        push_str(&mut r, name);
        push_str(&mut r, "'.");
        return r;
    }
    let mut header = String::new();
    push_str(&mut header, "Implementations of '");
    push_str(&mut header, name);
    push_str(&mut header, "' (");
    push_count(&mut header, locations.len());
    push_str(&mut header, "):");
    let lines = location_lines_exec(header, locations);
    join_newline(&lines)
}

// ---------------------------------------------------------------------------
// Errors and messages
// ---------------------------------------------------------------------------

/// Text of an error message, with a suggestion when one is given.
pub open spec fn error_text(message: Seq<char>, suggestion: Option<Seq<char>>) -> Seq<char> {
    match suggestion {
        Some(s) => "! "@ + message + " Did you mean '"@ + s + "'?"@,
        None => "! "@ + message,
    }
}

/// Formats an error message, with an optional suggestion.
pub fn format_error(message: &str, suggestion: Option<&str>) -> (r: String)
    ensures
        r@ == error_text(
            message@,
            match suggestion {
                Some(s) => Some(s@),
                None => None,
            },
        ),
{
    let mut r = String::new();
    push_str(&mut r, "! ");
    push_str(&mut r, message);
    if let Some(s) = suggestion {
        push_str(&mut r, " Did you mean '");
        push_str(&mut r, s);
        push_str(&mut r, "'?");
    }
    r
}

/// A Rust error code `E` followed by four digits and `": "` leads the message.
pub open spec fn has_error_code_prefix(raw: Seq<char>) -> bool {
    &&& raw.len() >= 7
    &&& raw[0] == 'E'
    &&& all_ascii_digits(raw.subrange(1, 5))
    &&& raw[5] == ':'
    &&& raw[6] == ' '
}

/// A diagnostic message without its leading Rust error code (`"E0308: "`).
pub open spec fn summary_text(raw: Seq<char>) -> Seq<char> {
    if has_error_code_prefix(raw) {
        raw.skip(7)
    } else {
        raw
    }
}

/// The message can be summarized without cutting a character: after a leading `E`, the
/// fourth byte of the rest is not inside a multi-byte character.
pub open spec fn summary_cuts_cleanly(raw: Seq<char>) -> bool {
    raw.len() > 0 && raw[0] == 'E' ==> {
        let rest = vstd::utf8::encode_utf8(raw.skip(1));
        rest.len() >= 4 ==> vstd::utf8::is_char_boundary(rest, 4)
    }
}

/// Whether the message can be summarized without cutting a character.
pub fn summary_is_safe(raw: &str) -> (r: bool)
    ensures
        r == summary_cuts_cleanly(raw@),
{
    let v = chars_of(raw);
    if v.len() == 0 || v[0] != 'E' {
        return true;
    }
    let n = raw.as_bytes().len();
    proof {
        let bytes = raw.spec_bytes();
        vstd::utf8::encode_utf8_first_scalar(raw@);
        vstd::utf8::encode_utf8_valid_utf8(raw@);
        assert(vstd::utf8::pop_first_scalar(bytes) =~= vstd::utf8::encode_utf8(raw@.drop_first()));
        assert(raw@.skip(1) =~= raw@.drop_first());
        assert(vstd::utf8::has_width_1_encoding('E' as u32));
        assert(vstd::utf8::length_of_first_scalar(bytes) == 1);
        assert(bytes.len() == 1 + vstd::utf8::encode_utf8(raw@.skip(1)).len());
    }
    if n < 5 {
        return true;
    }
    raw.is_char_boundary(5)
}

/// Whether every message can be summarized without cutting a character.
pub fn messages_are_safe(diagnostics: &[Diagnostic]) -> (r: bool)
    ensures
        r == messages_cut_cleanly(diagnostics@),
{
    let mut i: usize = 0;
    while i < diagnostics.len()
        invariant
            i <= diagnostics@.len(),
            forall|j: int| 0 <= j < i ==> summary_cuts_cleanly(#[trigger] diagnostics@[j].message@),
        decreases diagnostics@.len() - i,
    {
        if !summary_is_safe(diagnostics[i].message.as_str()) {
            return false;
        }
        i = i + 1;
    }
    true
}

/// Strips a Rust error code like `"E0308: "` from the front of a diagnostic message.
pub fn summarize_diagnostic_message(raw: &str) -> (r: String)
    requires
        summary_cuts_cleanly(raw@),
    ensures
        r@ == summary_text(raw@),
{
    let v = chars_of(raw);
    if v.len() >= 7 && v[0] == 'E' && v[5] == ':' && v[6] == ' ' {
        let mut k: usize = 1;
        while k < 5
            invariant
                1 <= k <= 5,
                v@ == raw@,
                v@.len() >= 7,
                forall|j: int| 1 <= j < k ==> '0' <= #[trigger] v@[j] && v@[j] <= '9',
            decreases 5 - k,
        {
            if !('0' <= v[k] && v[k] <= '9') {
                assert(!all_ascii_digits(raw@.subrange(1, 5))) by {
                    assert(raw@.subrange(1, 5)[k - 1] == v@[k as int]);
                }
                return raw.to_owned();
            }
            k = k + 1;
        }
        assert(all_ascii_digits(raw@.subrange(1, 5))) by {
            assert forall|j: int| 0 <= j < 4 implies '0' <= #[trigger] raw@.subrange(1, 5)[j]
                && raw@.subrange(1, 5)[j] <= '9' by {
                assert(raw@.subrange(1, 5)[j] == v@[j + 1]);
            }
        }
        return string_of_chars(&v, 7, v.len());
    }
    raw.to_owned()
}

/// The kind of finding an unused-code diagnostic reports, from its lower-cased message.
pub open spec fn unused_class(lower: Seq<char>) -> Seq<char> {
    if contains_text(lower, "dead_code"@) || contains_text(lower, "never constructed"@) {
        "dead_code"@
    } else if contains_text(lower, "never read"@) {
        "never_read"@
    } else {
        "unused"@
    }
}

/// Classifies an unused-code diagnostic message.
fn classify_unused(message: &str) -> (r: &'static str)
    ensures
        r@ == unused_class(lower_text(message@)),
{
    let lower = to_lowercase(message);
    if contains(lower.as_str(), "dead_code") || contains(lower.as_str(), "never constructed") {
        "dead_code"
    } else if contains(lower.as_str(), "never read") {
        "never_read"
    } else {
        "unused"
    }
}

// ---------------------------------------------------------------------------
// Paths
// ---------------------------------------------------------------------------

/// `uri` relative to `root_uri` when it lies under it; otherwise its display form.
pub open spec fn relative_path_text(uri: Seq<char>, root_uri: Seq<char>) -> Seq<char> {
    let path = short_uri_text(uri);
    let root = trim_end_char(short_uri_text(root_uri), '/');
    match strip_prefix_text(path, root) {
        Some(p) => match strip_prefix_text(p, "/"@) {
            Some(q) => q,
            None => p,
        },
        None => path,
    }
}

/// The path of `uri` relative to `root_uri`.
pub fn relative_path(uri: &str, root_uri: &str) -> (r: String)
    ensures
        r@ == relative_path_text(uri@, root_uri@),
{
    let path = short_uri(uri);
    let root = trim_end_matches(short_uri(root_uri).as_str(), '/');
    match strip_prefix(path.as_str(), root.as_str()) {
        Some(p) => match strip_prefix(p.as_str(), "/") {
            Some(q) => q,
            None => p,
        },
        None => path,
    }
}


// ---------------------------------------------------------------------------
// Diagnostics
// ---------------------------------------------------------------------------

/// Severity label of a diagnostic.
pub open spec fn severity_text(severity: Option<DiagnosticSeverity>) -> Seq<char> {
    match severity {
        Some(DiagnosticSeverity::Error) => "ERROR"@,
        Some(DiagnosticSeverity::Warning) => "WARN"@,
        Some(DiagnosticSeverity::Information) => "INFO"@,
        Some(DiagnosticSeverity::Hint) => "HINT"@,
        None => "???"@,
    }
}

fn severity_label(severity: Option<DiagnosticSeverity>) -> (r: &'static str)
    ensures
        r@ == severity_text(severity),
{
    match severity {
        Some(DiagnosticSeverity::Error) => "ERROR",
        Some(DiagnosticSeverity::Warning) => "WARN",
        Some(DiagnosticSeverity::Information) => "INFO",
        Some(DiagnosticSeverity::Hint) => "HINT",
        None => "???",
    }
}

/// Every message can be summarized.
pub open spec fn messages_cut_cleanly(diagnostics: Seq<Diagnostic>) -> bool {
    forall|i: int| 0 <= i < diagnostics.len() ==> summary_cuts_cleanly(#[trigger] diagnostics[i].message@)
}

/// `"  L<line>: [<severity>] <message>"` for a diagnostic.
pub open spec fn diagnostic_line(d: Diagnostic) -> Seq<char> {
    "  L"@ + one_based(d.range.start.line) + ": ["@ + severity_text(d.severity) + "] "@
        + summary_text(d.message@)
}

/// Text of the diagnostics of one file.
pub open spec fn diagnostics_text(uri: Seq<char>, diagnostics: Seq<Diagnostic>) -> Seq<char> {
    if diagnostics.len() == 0 {
        short_uri_text(uri) + ": clean"@
    } else {
        join_lines(
            seq![short_uri_text(uri) + " ("@ + decimal(diagnostics.len()) + " issues):"@]
                + diagnostics.map_values(|d: Diagnostic| diagnostic_line(d)),
        )
    }
}

/// Lists the diagnostics of one file, or says that it is clean.
pub fn format_diagnostics(uri: &str, diagnostics: &[Diagnostic]) -> (r: String)
    requires
        messages_cut_cleanly(diagnostics@),
    ensures
        r@ == diagnostics_text(uri@, diagnostics@),
{
    let short = short_uri(uri);
    let mut header = String::new();
    push_str(&mut header, short.as_str());
    if diagnostics.len() == 0 {
        push_str(&mut header, ": clean");
        return header;
    }
    push_str(&mut header, " (");
    push_count(&mut header, diagnostics.len());
    push_str(&mut header, " issues):");
    let ghost h = header@;
    let mut lines: Vec<String> = Vec::new();
    lines.push(header);
    let n = diagnostics.len();
    let mut i: usize = 0;
    while i < n
        invariant
            n == diagnostics@.len(),
            i <= n,
            messages_cut_cleanly(diagnostics@),
            texts(lines@) =~= seq![h] + diagnostics@.take(i as int).map_values(
                |d: Diagnostic| diagnostic_line(d),
            ),
        decreases n - i,
    {
        let d = &diagnostics[i];
        assert(summary_cuts_cleanly(diagnostics@[i as int].message@));
        let mut line = String::new();
        push_str(&mut line, "  L");
        push_one_based(&mut line, d.range.start.line);
        push_str(&mut line, ": [");
        push_str(&mut line, severity_label(d.severity));
        push_str(&mut line, "] ");
        push_str(&mut line, summarize_diagnostic_message(d.message.as_str()).as_str());
        let ghost prev = lines@;
        lines.push(line);
        assert(texts(lines@) =~= texts(prev).push(diagnostic_line(*d)));
        assert(diagnostics@.take(i + 1).map_values(|d: Diagnostic| diagnostic_line(d))
            =~= diagnostics@.take(i as int).map_values(|d: Diagnostic| diagnostic_line(d)).push(
            diagnostic_line(*d),
        ));
        i = i + 1;
    }
    assert(diagnostics@.take(n as int) =~= diagnostics@);
    join_newline(&lines)
}

/// `"  <file> L<line>: [<class>] <message>"` for an unused-code finding.
pub open spec fn unused_line(uri: Seq<char>, d: Diagnostic) -> Seq<char> {
    "  "@ + short_uri_text(uri) + " L"@ + one_based(d.range.start.line) + ": ["@ + unused_class(
        lower_text(d.message@),
    ) + "] "@ + summary_text(d.message@)
}

/// Unused-code findings as (uri, diagnostic) pairs.
pub open spec fn finding_pairs(items: Seq<(&str, &Diagnostic)>) -> Seq<(Seq<char>, Diagnostic)> {
    items.map_values(|it: (&str, &Diagnostic)| (it.0@, *it.1))
}

/// Every message of the findings can be summarized.
pub open spec fn findings_cut_cleanly(items: Seq<(Seq<char>, Diagnostic)>) -> bool {
    forall|i: int| 0 <= i < items.len() ==> summary_cuts_cleanly(#[trigger] items[i].1.message@)
}

/// Text of a list of unused-code findings.
pub open spec fn unused_report(items: Seq<(Seq<char>, Diagnostic)>) -> Seq<char> {
    if items.len() == 0 {
        "No unused symbols found."@
    } else {
        join_lines(
            seq!["Unused symbols ("@ + decimal(items.len()) + "):"@] + items.map_values(
                |it: (Seq<char>, Diagnostic)| unused_line(it.0, it.1),
            ),
        )
    }
}

/// Lists unused-code findings, each with the file it is in.
pub fn format_unused(items: &[(&str, &Diagnostic)]) -> (r: String)
    requires
        findings_cut_cleanly(finding_pairs(items@)),
    ensures
        r@ == unused_report(finding_pairs(items@)),
{
    let ghost pairs = finding_pairs(items@);
    if items.len() == 0 {
        let mut r = String::new();
        push_str(&mut r, "No unused symbols found.");
        return r;
    }
    let mut header = String::new();
    push_str(&mut header, "Unused symbols (");
    push_count(&mut header, items.len());
    push_str(&mut header, "):");
    let ghost h = header@;
    let mut lines: Vec<String> = Vec::new();
    lines.push(header);
    let n = items.len();
    let mut i: usize = 0;
    while i < n
        invariant
            n == items@.len(),
            i <= n,
            pairs == finding_pairs(items@),
            findings_cut_cleanly(pairs),
            texts(lines@) =~= seq![h] + pairs.take(i as int).map_values(
                |it: (Seq<char>, Diagnostic)| unused_line(it.0, it.1),
            ),
        decreases n - i,
    {
        let (uri, diag) = items[i];
        assert(pairs[i as int] == (uri@, *diag));
        assert(summary_cuts_cleanly(pairs[i as int].1.message@));
        let mut line = String::new();
        push_str(&mut line, "  ");
        push_str(&mut line, short_uri(uri).as_str());
        push_str(&mut line, " L");
        push_one_based(&mut line, diag.range.start.line);
        push_str(&mut line, ": [");
        push_str(&mut line, classify_unused(diag.message.as_str()));
        push_str(&mut line, "] ");
        push_str(&mut line, summarize_diagnostic_message(diag.message.as_str()).as_str());
        let ghost prev = lines@;
        lines.push(line);
        assert(texts(lines@) =~= texts(prev).push(unused_line(uri@, *diag)));
        assert(pairs.take(i + 1).map_values(|it: (Seq<char>, Diagnostic)| unused_line(it.0, it.1))
            =~= pairs.take(i as int).map_values(
            |it: (Seq<char>, Diagnostic)| unused_line(it.0, it.1),
        ).push(unused_line(uri@, *diag)));
        i = i + 1;
    }
    assert(pairs.take(n as int) =~= pairs);
    join_newline(&lines)
}

/// Text of a workspace summary.
pub open spec fn workspace_map_text(
    root_uri: Seq<char>,
    file_count: nat,
    symbol_count: nat,
    errors: nat,
    warnings: nat,
) -> Seq<char> {
    join_lines(
        seq![
            "Workspace: "@ + short_uri_text(root_uri),
            "  Files: "@ + decimal(file_count),
            "  Symbols: "@ + decimal(symbol_count),
            if errors > 0 || warnings > 0 {
                "  Diagnostics: "@ + decimal(errors) + " errors, "@ + decimal(warnings)
                    + " warnings"@
            } else {
                "  Diagnostics: clean"@
            },
        ],
    )
}

/// Summarizes a workspace: its root, file and symbol counts and diagnostic totals.
pub fn format_workspace_map(
    root_uri: &str,
    file_count: usize,
    symbol_count: usize,
    errors: usize,
    warnings: usize,
) -> (r: String)
    ensures
        r@ == workspace_map_text(
            root_uri@,
            file_count as nat,
            symbol_count as nat,
            errors as nat,
            warnings as nat,
        ),
{
    let mut l1 = String::new();
    push_str(&mut l1, "Workspace: ");
    push_str(&mut l1, short_uri(root_uri).as_str());
    let mut l2 = String::new();
    push_str(&mut l2, "  Files: ");
    push_count(&mut l2, file_count);
    let mut l3 = String::new();
    push_str(&mut l3, "  Symbols: ");
    push_count(&mut l3, symbol_count);
    let mut l4 = String::new();
    if errors > 0 || warnings > 0 {
        push_str(&mut l4, "  Diagnostics: ");
        push_count(&mut l4, errors);
        push_str(&mut l4, " errors, ");
        push_count(&mut l4, warnings);
        push_str(&mut l4, " warnings");
    } else {
        push_str(&mut l4, "  Diagnostics: clean");
    }
    let ghost t = seq![l1@, l2@, l3@, l4@];
    let mut lines: Vec<String> = Vec::new();
    lines.push(l1);
    lines.push(l2);
    lines.push(l3);
    lines.push(l4);
    assert(texts(lines@) =~= t);
    join_newline(&lines)
}


// ---------------------------------------------------------------------------
// Symbols and calls
// ---------------------------------------------------------------------------

/// `" in <container>"`, or nothing when there is no container.
pub open spec fn container_text(container: Option<String>) -> Seq<char> {
    match container {
        Some(c) => " in "@ + c@,
        None => seq![],
    }
}

/// The numbered line of the `i`-th candidate.
pub open spec fn candidate_line(i: int, e: SymbolEntry) -> Seq<char> {
    "  "@ + decimal((i + 1) as nat) + ". "@ + e.name@ + " ("@ + kind_debug_name(e.kind) + ")"@
        + container_text(e.container_name) + " — "@ + short_uri_text(e.uri@)
}

/// Text asking to choose between several symbols named `name`.
pub open spec fn disambiguation_text(name: Seq<char>, entries: Seq<SymbolEntry>) -> Seq<char> {
    join_lines(
        seq!["? Multiple matches for '"@ + name + "'. Narrow with a selector:"@] + Seq::new(
            entries.len(),
            |i: int| candidate_line(i, entries[i]),
        ),
    )
}

/// Lists the candidates for an ambiguous symbol name.
pub fn format_disambiguation(name: &str, entries: &[SymbolEntry]) -> (r: String)
    ensures
        r@ == disambiguation_text(name@, entries@),
{
    let mut header = String::new();
    push_str(&mut header, "? Multiple matches for '");
    push_str(&mut header, name);
    push_str(&mut header, "'. Narrow with a selector:");
    let ghost h = header@;
    let mut lines: Vec<String> = Vec::new();
    lines.push(header);
    let n = entries.len();
    let mut i: usize = 0;
    while i < n
        invariant
            n == entries@.len(),
            i <= n,
            texts(lines@) =~= seq![h] + Seq::new(i as nat, |j: int| candidate_line(j, entries@[j])),
        decreases n - i,
    {
        let e = &entries[i];
        let mut line = String::new();
        push_str(&mut line, "  ");
        push_count(&mut line, i + 1);
        push_str(&mut line, ". ");
        push_str(&mut line, e.name.as_str());
        push_str(&mut line, " (");
        push_str(&mut line, e.kind.debug_name());
        push_str(&mut line, ")");
        match &e.container_name {
            Some(c) => {
                push_str(&mut line, " in ");
                push_str(&mut line, c.as_str());
            },
            None => {},
        }
        push_str(&mut line, " — ");
        push_str(&mut line, short_uri(e.uri.as_str()).as_str());
        assert(line@ =~= candidate_line(i as int, *e));
        let ghost prev = lines@;
        lines.push(line);
        assert(texts(lines@) =~= texts(prev).push(candidate_line(i as int, *e)));
        i = i + 1;
    }
    join_newline(&lines)
}

/// Text of hover information about a symbol.
pub open spec fn hover_text(
    name: Seq<char>,
    kind: Seq<char>,
    uri: Seq<char>,
    range: Range,
    contents: Seq<char>,
) -> Seq<char> {
    let head = name + " ("@ + kind + ") — "@ + short_uri_text(uri) + " L"@ + one_based(
        range.start.line,
    );
    if contents.len() == 0 {
        join_lines(seq![head])
    } else {
        join_lines(seq![head, seq![], contents])
    }
}

/// Describes a symbol, with the language server's hover contents when there are any.
pub fn format_hover(name: &str, kind: &str, uri: &str, range: &Range, contents: &str) -> (r:
    String)
    ensures
        r@ == hover_text(name@, kind@, uri@, *range, contents@),
{
    let mut head = String::new();
    push_str(&mut head, name);
    push_str(&mut head, " (");
    push_str(&mut head, kind);
    push_str(&mut head, ") — ");
    push_str(&mut head, short_uri(uri).as_str());
    push_str(&mut head, " L");
    push_one_based(&mut head, range.start.line);
    let ghost h = head@;
    let mut lines: Vec<String> = Vec::new();
    lines.push(head);
    if !contents.is_empty() {
        lines.push(String::new());
        lines.push(contents.to_owned());
        assert(texts(lines@) =~= seq![h, seq![], contents@]);
    } else {
        assert(texts(lines@) =~= seq![h]);
    }
    join_newline(&lines)
}

/// `"  <name> (<Kind>) — <file> L<line>"` for an end of a call.
pub open spec fn call_item_line(item: CallHierarchyItem) -> Seq<char> {
    "  "@ + item.name@ + " ("@ + kind_debug_name(item.kind) + ") — "@ + short_uri_text(item.uri@)
        + " L"@ + one_based(item.range.start.line)
}

fn call_item_line_exec(item: &CallHierarchyItem) -> (r: String)
    ensures
        r@ == call_item_line(*item),
{
    let mut line = String::new();
    push_str(&mut line, "  ");
    push_str(&mut line, item.name.as_str());
    push_str(&mut line, " (");
    push_str(&mut line, item.kind.debug_name());
    push_str(&mut line, ") — ");
    push_str(&mut line, short_uri(item.uri.as_str()).as_str());
    push_str(&mut line, " L");
    push_one_based(&mut line, item.range.start.line);
    line
}

/// Text of the callers of `name`.
pub open spec fn callers_text(name: Seq<char>, calls: Seq<CallHierarchyIncomingCall>) -> Seq<char> {
    if calls.len() == 0 {
        "No callers of '"@ + name + "'."@
    } else {
        join_lines(
            seq!["Callers of '"@ + name + "' ("@ + decimal(calls.len()) + "):"@]
                + calls.map_values(|c: CallHierarchyIncomingCall| call_item_line(c.from)),
        )
    }
}

/// Lists the callers of `name`.
pub fn format_callers(name: &str, calls: &[CallHierarchyIncomingCall]) -> (r: String)
    ensures
        r@ == callers_text(name@, calls@),
{
    let mut header = String::new();
    if calls.len() == 0 {
        push_str(&mut header, "No callers of '");
        push_str(&mut header, name);
        push_str(&mut header, "'.");
        return header;
    }
    push_str(&mut header, "Callers of '");
    push_str(&mut header, name);
    push_str(&mut header, "' (");
    push_count(&mut header, calls.len());
    push_str(&mut header, "):");
    let ghost h = header@;
    let mut lines: Vec<String> = Vec::new();
    lines.push(header);
    let n = calls.len();
    let mut i: usize = 0;
    while i < n
        invariant
            n == calls@.len(),
            i <= n,
            texts(lines@) =~= seq![h] + calls@.take(i as int).map_values(
                |c: CallHierarchyIncomingCall| call_item_line(c.from),
            ),
        decreases n - i,
    {
        let line = call_item_line_exec(&calls[i].from);
        let ghost prev = lines@;
        lines.push(line);
        assert(texts(lines@) =~= texts(prev).push(call_item_line(calls@[i as int].from)));
        assert(calls@.take(i + 1).map_values(|c: CallHierarchyIncomingCall| call_item_line(c.from))
            =~= calls@.take(i as int).map_values(
            |c: CallHierarchyIncomingCall| call_item_line(c.from),
        ).push(call_item_line(calls@[i as int].from)));
        i = i + 1;
    }
    assert(calls@.take(n as int) =~= calls@);
    join_newline(&lines)
}

/// Text of the callees of `name`.
pub open spec fn callees_text(name: Seq<char>, calls: Seq<CallHierarchyOutgoingCall>) -> Seq<char> {
    if calls.len() == 0 {
        "No callees of '"@ + name + "'."@
    } else {
        join_lines(
            seq!["Callees of '"@ + name + "' ("@ + decimal(calls.len()) + "):"@]
                + calls.map_values(|c: CallHierarchyOutgoingCall| call_item_line(c.to)),
        )
    }
}

/// Lists the callees of `name`.
pub fn format_callees(name: &str, calls: &[CallHierarchyOutgoingCall]) -> (r: String)
    ensures
        r@ == callees_text(name@, calls@),
{
    let mut header = String::new();
    if calls.len() == 0 {
        push_str(&mut header, "No callees of '");
        push_str(&mut header, name);
        push_str(&mut header, "'.");
        return header;
    }
    push_str(&mut header, "Callees of '");
    push_str(&mut header, name);
    push_str(&mut header, "' (");
    push_count(&mut header, calls.len());
    push_str(&mut header, "):");
    let ghost h = header@;
    let mut lines: Vec<String> = Vec::new();
    lines.push(header);
    let n = calls.len();
    let mut i: usize = 0;
    while i < n
        invariant
            n == calls@.len(),
            i <= n,
            texts(lines@) =~= seq![h] + calls@.take(i as int).map_values(
                |c: CallHierarchyOutgoingCall| call_item_line(c.to),
            ),
        decreases n - i,
    {
        let line = call_item_line_exec(&calls[i].to);
        let ghost prev = lines@;
        lines.push(line);
        assert(texts(lines@) =~= texts(prev).push(call_item_line(calls@[i as int].to)));
        assert(calls@.take(i + 1).map_values(|c: CallHierarchyOutgoingCall| call_item_line(c.to))
            =~= calls@.take(i as int).map_values(
            |c: CallHierarchyOutgoingCall| call_item_line(c.to),
        ).push(call_item_line(calls@[i as int].to)));
        i = i + 1;
    }
    assert(calls@.take(n as int) =~= calls@);
    join_newline(&lines)
}

// ---------------------------------------------------------------------------
// Code actions and mutations
// ---------------------------------------------------------------------------

/// The numbered line of the `i`-th code action.
pub open spec fn action_line(i: int, a: CodeAction) -> Seq<char> {
    "  "@ + decimal((i + 1) as nat) + ". ["@ + (match a.kind {
        Some(k) => k@,
        None => "unknown"@,
    }) + "] "@ + a.title@ + (if a.is_preferred == Some(true) {
        " (preferred)"@
    } else {
        seq![]
    })
}

/// Text asking to choose between several code actions.
pub open spec fn code_action_choices_text(actions: Seq<CodeAction>) -> Seq<char> {
    join_lines(
        seq!["? Multiple code actions available ("@ + decimal(actions.len()) + "):"@] + Seq::new(
            actions.len(),
            |i: int| action_line(i, actions[i]),
        ),
    )
}

/// Lists code actions to choose from, marking the preferred ones.
pub fn format_code_action_choices(actions: &[CodeAction]) -> (r: String)
    ensures
        r@ == code_action_choices_text(actions@),
{
    let mut header = String::new();
    push_str(&mut header, "? Multiple code actions available (");
    push_count(&mut header, actions.len());
    push_str(&mut header, "):");
    let ghost h = header@;
    let mut lines: Vec<String> = Vec::new();
    lines.push(header);
    let n = actions.len();
    let mut i: usize = 0;
    while i < n
        invariant
            n == actions@.len(),
            i <= n,
            texts(lines@) =~= seq![h] + Seq::new(i as nat, |j: int| action_line(j, actions@[j])),
        decreases n - i,
    {
        let a = &actions[i];
        let mut line = String::new();
        push_str(&mut line, "  ");
        push_count(&mut line, i + 1);
        push_str(&mut line, ". [");
        match &a.kind {
            Some(k) => push_str(&mut line, k.as_str()),
            None => push_str(&mut line, "unknown"),
        }
        push_str(&mut line, "] ");
        push_str(&mut line, a.title.as_str());
        if a.is_preferred == Some(true) {
            push_str(&mut line, " (preferred)");
        }
        let ghost prev = lines@;
        lines.push(line);
        assert(texts(lines@) =~= texts(prev).push(action_line(i as int, *a)));
        i = i + 1;
    }
    join_newline(&lines)
}

/// Lists some of the code actions, given by their indices, to choose from.
pub fn format_code_action_subset(actions: &[CodeAction], picks: &Vec<usize>) -> (r: String)
    requires
        forall|k: int| 0 <= k < picks@.len() ==> #[trigger] picks@[k] < actions@.len(),
    ensures
        r@ == code_action_choices_text(picks@.map_values(|i: usize| actions@[i as int])),
{
    let ghost chosen = picks@.map_values(|i: usize| actions@[i as int]);
    let mut header = String::new();
    push_str(&mut header, "? Multiple code actions available (");
    push_count(&mut header, picks.len());
    push_str(&mut header, "):");
    let ghost h = header@;
    let mut lines: Vec<String> = Vec::new();
    lines.push(header);
    let n = picks.len();
    let mut i: usize = 0;
    while i < n
        invariant
            n == picks@.len(),
            i <= n,
            forall|k: int| 0 <= k < picks@.len() ==> #[trigger] picks@[k] < actions@.len(),
            chosen == picks@.map_values(|i: usize| actions@[i as int]),
            texts(lines@) =~= seq![h] + Seq::new(i as nat, |j: int| action_line(j, chosen[j])),
        decreases n - i,
    {
        let a = &actions[picks[i]];
        assert(chosen[i as int] == *a);
        let mut line = String::new();
        push_str(&mut line, "  ");
        push_count(&mut line, i + 1);
        push_str(&mut line, ". [");
        match &a.kind {
            Some(k) => push_str(&mut line, k.as_str()),
            None => push_str(&mut line, "unknown"),
        }
        push_str(&mut line, "] ");
        push_str(&mut line, a.title.as_str());
        if a.is_preferred == Some(true) {
            push_str(&mut line, " (preferred)");
        }
        let ghost prev = lines@;
        lines.push(line);
        assert(texts(lines@) =~= texts(prev).push(action_line(i as int, *a)));
        i = i + 1;
    }
    join_newline(&lines)
}

/// `singular` when `n` is one, else `plural`.
pub open spec fn plural(n: nat, singular: Seq<char>, plural: Seq<char>) -> Seq<char> {
    if n == 1 {
        singular
    } else {
        plural
    }
}

/// `"edit"` or `"edits"`.
pub open spec fn edits_word(n: nat) -> Seq<char> {
    plural(n, "edit"@, "edits"@)
}

fn push_edits_word(s: &mut String, n: usize)
    ensures
        final(s)@ == old(s)@ + edits_word(n as nat),
{
    if n == 1 {
        push_str(s, "edit");
    } else {
        push_str(s, "edits");
    }
}

/// Line for a changed file.
pub open spec fn changed_line(change: (String, usize), root: Seq<char>) -> Seq<char> {
    "  "@ + relative_path_text(change.0@, root) + ": "@ + decimal(change.1 as nat) + " "@
        + edits_word(change.1 as nat)
}

/// Line for a created file.
pub open spec fn created_line(uri: String, root: Seq<char>) -> Seq<char> {
    "  "@ + relative_path_text(uri@, root) + " (created)"@
}

/// Line for a renamed file.
pub open spec fn renamed_line(r: (String, String), root: Seq<char>) -> Seq<char> {
    "  "@ + relative_path_text(r.0@, root) + " → "@ + relative_path_text(r.1@, root)
        + " (renamed)"@
}

/// The lines of a mutation summary.
pub open spec fn mutation_lines(
    verb: Seq<char>,
    description: Seq<char>,
    result: ApplyResult,
    root: Seq<char>,
) -> Seq<Seq<char>> {
    let total = edit_count_sum(result.files_changed@);
    let files = result.files_changed@.len();
    seq![
        verb + ": "@ + description + " ("@ + decimal(files) + " "@ + plural(
            files,
            "file"@,
            "files"@,
        ) + ", "@ + decimal(total) + " "@ + edits_word(total) + ")"@,
    ] + result.files_changed@.map_values(|c: (String, usize)| changed_line(c, root))
        + result.files_created@.map_values(|u: String| created_line(u, root))
        + result.files_renamed@.map_values(|r: (String, String)| renamed_line(r, root))
}

/// Text of a mutation summary.
pub open spec fn mutation_text(
    verb: Seq<char>,
    description: Seq<char>,
    result: ApplyResult,
    root: Seq<char>,
) -> Seq<char> {
    join_lines(mutation_lines(verb, description, result, root))
}

/// Summarizes what a mutation changed: file and edit counts, then one line per changed,
/// created and renamed file, relative to the workspace root.
pub fn format_mutation_result(
    verb: &str,
    description: &str,
    result: &ApplyResult,
    root_uri: &str,
) -> (r: String)
    requires
        edit_count_sum(result.files_changed@) <= usize::MAX,
    ensures
        r@ == mutation_text(verb@, description@, *result, root_uri@),
{
    let total = result.total_edits();
    let file_count = result.files_changed.len();
    let mut header = String::new();
    push_str(&mut header, verb);
    push_str(&mut header, ": ");
    push_str(&mut header, description);
    push_str(&mut header, " (");
    push_count(&mut header, file_count);
    push_str(&mut header, " ");
    if file_count == 1 {
        push_str(&mut header, "file");
    } else {
        push_str(&mut header, "files");
    }
    push_str(&mut header, ", ");
    push_count(&mut header, total);
    push_str(&mut header, " ");
    push_edits_word(&mut header, total);
    push_str(&mut header, ")");
    let ghost h = header@;
    let ghost root = root_uri@;
    let mut lines: Vec<String> = Vec::new();
    lines.push(header);
    let changed = &result.files_changed;
    let mut i: usize = 0;
    while i < changed.len()
        invariant
            i <= changed@.len(),
            root == root_uri@,
            texts(lines@) =~= seq![h] + changed@.take(i as int).map_values(
                |c: (String, usize)| changed_line(c, root),
            ),
        decreases changed@.len() - i,
    {
        let (uri, count) = &changed[i];
        let mut line = String::new();
        push_str(&mut line, "  ");
        push_str(&mut line, relative_path(uri.as_str(), root_uri).as_str());
        push_str(&mut line, ": ");
        push_count(&mut line, *count);
        push_str(&mut line, " ");
        push_edits_word(&mut line, *count);
        let ghost prev = lines@;
        lines.push(line);
        assert(texts(lines@) =~= texts(prev).push(changed_line(changed@[i as int], root)));
        assert(changed@.take(i + 1).map_values(|c: (String, usize)| changed_line(c, root))
            =~= changed@.take(i as int).map_values(|c: (String, usize)| changed_line(c, root)).push(
            changed_line(changed@[i as int], root),
        ));
        i = i + 1;
    }
    assert(changed@.take(changed@.len() as int) =~= changed@);
    let ghost after_changed = texts(lines@);
    let created = &result.files_created;
    let mut i: usize = 0;
    while i < created.len()
        invariant
            i <= created@.len(),
            root == root_uri@,
            texts(lines@) =~= after_changed + created@.take(i as int).map_values(
                |u: String| created_line(u, root),
            ),
        decreases created@.len() - i,
    {
        let mut line = String::new();
        push_str(&mut line, "  ");
        push_str(&mut line, relative_path(created[i].as_str(), root_uri).as_str());
        push_str(&mut line, " (created)");
        let ghost prev = lines@;
        lines.push(line);
        assert(texts(lines@) =~= texts(prev).push(created_line(created@[i as int], root)));
        assert(created@.take(i + 1).map_values(|u: String| created_line(u, root))
            =~= created@.take(i as int).map_values(|u: String| created_line(u, root)).push(
            created_line(created@[i as int], root),
        ));
        i = i + 1;
    }
    assert(created@.take(created@.len() as int) =~= created@);
    let ghost after_created = texts(lines@);
    let renamed = &result.files_renamed;
    let mut i: usize = 0;
    while i < renamed.len()
        invariant
            i <= renamed@.len(),
            root == root_uri@,
            texts(lines@) =~= after_created + renamed@.take(i as int).map_values(
                |r: (String, String)| renamed_line(r, root),
            ),
        decreases renamed@.len() - i,
    {
        let (old_uri, new_uri) = &renamed[i];
        let mut line = String::new();
        push_str(&mut line, "  ");
        push_str(&mut line, relative_path(old_uri.as_str(), root_uri).as_str());
        push_str(&mut line, " → ");
        push_str(&mut line, relative_path(new_uri.as_str(), root_uri).as_str());
        push_str(&mut line, " (renamed)");
        let ghost prev = lines@;
        lines.push(line);
        assert(texts(lines@) =~= texts(prev).push(renamed_line(renamed@[i as int], root)));
        assert(renamed@.take(i + 1).map_values(|r: (String, String)| renamed_line(r, root))
            =~= renamed@.take(i as int).map_values(|r: (String, String)| renamed_line(r, root)).push(
            renamed_line(renamed@[i as int], root),
        ));
        i = i + 1;
    }
    assert(renamed@.take(renamed@.len() as int) =~= renamed@);
    assert(texts(lines@) =~= mutation_lines(verb@, description@, *result, root_uri@));
    join_newline(&lines)
}


// ---------------------------------------------------------------------------
// Symbol outlines
// ---------------------------------------------------------------------------

/// Two spaces repeated `n` times.
pub open spec fn indentation(n: nat) -> Seq<char> {
    Seq::new(2 * n, |i: int| ' ')
}

/// The outline line of one symbol at the given nesting.
pub open spec fn outline_symbol_line(sym: DocumentSymbol, indent: nat) -> Seq<char> {
    indentation(indent + 1) + sym.name@ + " ("@ + kind_lower_name(sym.kind) + ") L"@ + one_based(
        sym.range.start.line,
    )
}

/// Text of the outline of `symbols` at the given nesting; the top level starts with a header
/// naming the file, and every symbol with children is followed by their outline.
pub open spec fn outline_text(file: Seq<char>, symbols: Seq<DocumentSymbol>, indent: nat) -> Seq<
    char,
>
    decreases symbols, 1nat,
{
    join_lines(
        (if indent == 0 {
            seq!["Symbols in "@ + short_uri_text(file) + ":"@]
        } else {
            seq![]
        }) + outline_entries(file, symbols, indent),
    )
}

/// The outline lines of the symbols, each followed by the outline of its children.
pub open spec fn outline_entries(file: Seq<char>, symbols: Seq<DocumentSymbol>, indent: nat) -> Seq<
    Seq<char>,
>
    decreases symbols, 0nat,
{
    if symbols.len() == 0 {
        seq![]
    } else {
        let sym = symbols.last();
        outline_entries(file, symbols.drop_last(), indent) + seq![outline_symbol_line(sym, indent)]
            + match sym.children {
            Some(c) => seq![outline_text(file, c@, indent + 1)],
            None => seq![],
        }
    }
}

/// How many levels of children lie below the symbols.
pub open spec fn nesting(symbols: Seq<DocumentSymbol>) -> nat
    decreases symbols,
{
    if symbols.len() == 0 {
        0
    } else {
        let below_last = match symbols.last().children {
            Some(c) => 1 + nesting(c@),
            None => 0,
        };
        let rest = nesting(symbols.drop_last());
        if rest < below_last {
            below_last
        } else {
            rest
        }
    }
}

/// Outlines the symbols of a file, children indented below their parents.
pub fn format_symbol_outline(file: &str, symbols: &[DocumentSymbol], indent: usize) -> (r: String)
    requires
        indent + nesting(symbols@) < usize::MAX,
    ensures
        r@ == outline_text(file@, symbols@, indent as nat),
    decreases symbols@,
{
    let mut lines: Vec<String> = Vec::new();
    if indent == 0 {
        let mut header = String::new();
        push_str(&mut header, "Symbols in ");
        push_str(&mut header, short_uri(file).as_str());
        push_str(&mut header, ":");
        lines.push(header);
    }
    let ghost start = texts(lines@);
    assert(start =~= (if indent == 0 {
        seq!["Symbols in "@ + short_uri_text(file@) + ":"@]
    } else {
        seq![]
    }));
    let mut prefix = String::new();
    push_char(&mut prefix, ' ');
    push_char(&mut prefix, ' ');
    let mut k: usize = 0;
    while k < indent
        invariant
            k <= indent,
            prefix@ =~= indentation(k as nat + 1),
        decreases indent - k,
    {
        push_char(&mut prefix, ' ');
        push_char(&mut prefix, ' ');
        k = k + 1;
    }
    let n = symbols.len();
    let mut i: usize = 0;
    while i < n
        invariant
            n == symbols@.len(),
            i <= n,
            prefix@ == indentation(indent as nat + 1),
            indent + nesting(symbols@) < usize::MAX,
            start =~= (if indent == 0 {
                seq!["Symbols in "@ + short_uri_text(file@) + ":"@]
            } else {
                seq![]
            }),
            texts(lines@) =~= start + outline_entries(file@, symbols@.take(i as int), indent as nat),
        decreases n - i,
    {
        let sym = &symbols[i];
        proof {
            assert(symbols@.take(i + 1).drop_last() =~= symbols@.take(i as int));
            assert(symbols@.take(i + 1).last() == *sym);
            lemma_nesting_bounds(symbols@, i as int);
        }
        let mut line = String::new();
        push_str(&mut line, prefix.as_str());
        push_str(&mut line, sym.name.as_str());
        push_str(&mut line, " (");
        push_str(&mut line, sym.kind.lower_name());
        push_str(&mut line, ") L");
        push_one_based(&mut line, sym.range.start.line);
        let ghost prev = lines@;
        lines.push(line);
        assert(texts(lines@) =~= texts(prev).push(outline_symbol_line(*sym, indent as nat)));
        match &sym.children {
            Some(children) => {
                proof {
                    assert(decreases_to!(symbols@ => symbols@[i as int]));
                }
                let nested = format_symbol_outline(file, children.as_slice(), indent + 1);
                let ghost prev2 = lines@;
                lines.push(nested);
                assert(texts(lines@) =~= texts(prev2).push(
                    outline_text(file@, children@, indent as nat + 1),
                ));
            },
            None => {},
        }
        i = i + 1;
    }
    assert(symbols@.take(n as int) =~= symbols@);
    join_newline(&lines)
}

proof fn lemma_nesting_bounds(symbols: Seq<DocumentSymbol>, i: int)
    requires
        0 <= i < symbols.len(),
    ensures
        match symbols[i].children {
            Some(c) => 1 + nesting(c@) <= nesting(symbols),
            None => true,
        },
    decreases symbols.len(),
{
    if i < symbols.len() - 1 {
        lemma_nesting_bounds(symbols.drop_last(), i);
    }
}

/// How many levels of children lie below the symbols, or none when that does not fit a `usize`.
pub fn nesting_depth(symbols: &[DocumentSymbol]) -> (r: Option<usize>)
    ensures
        match r {
            Some(d) => d == nesting(symbols@),
            None => nesting(symbols@) > usize::MAX,
        },
    decreases symbols@,
{
    let mut depth: usize = 0;
    let mut i: usize = 0;
    while i < symbols.len()
        invariant
            i <= symbols@.len(),
            depth == nesting(symbols@.take(i as int)),
        decreases symbols@.len() - i,
    {
        let sym = &symbols[i];
        assert(symbols@.take(i + 1).drop_last() =~= symbols@.take(i as int));
        assert(symbols@.take(i + 1).last() == *sym);
        let below: usize = match &sym.children {
            Some(children) => {
                proof {
                    assert(decreases_to!(symbols@ => symbols@[i as int]));
                }
                match nesting_depth(children.as_slice()) {
                    Some(d) => {
                        if d == usize::MAX {
                            proof {
                                lemma_nesting_prefix(symbols@, i + 1);
                                lemma_nesting_bounds(symbols@.take(i + 1), i as int);
                            }
                            return None;
                        }
                        d + 1
                    },
                    None => {
                        proof {
                            lemma_nesting_prefix(symbols@, i + 1);
                            lemma_nesting_bounds(symbols@.take(i + 1), i as int);
                        }
                        return None;
                    },
                }
            },
            None => 0,
        };
        if depth < below {
            depth = below;
        }
        i = i + 1;
    }
    assert(symbols@.take(symbols@.len() as int) =~= symbols@);
    Some(depth)
}

proof fn lemma_nesting_prefix(symbols: Seq<DocumentSymbol>, n: int)
    requires
        0 <= n <= symbols.len(),
    ensures
        nesting(symbols.take(n)) <= nesting(symbols),
    decreases symbols.len(),
{
    if n < symbols.len() {
        assert(symbols.drop_last().take(n) =~= symbols.take(n));
        lemma_nesting_prefix(symbols.drop_last(), n);
    } else {
        assert(symbols.take(n) =~= symbols);
    }
}

/// A file under the workspace root is shown by its path relative to the root: for a root URI
/// `file://...` without a trailing slash and a path that does not start with one,
/// `relative_path(root + "/" + path, root)` is `path`.
pub proof fn law_relative_path_of_file_in_root(root: Seq<char>, path: Seq<char>)
    requires
        is_prefix_of("file://"@, root),
        root.last() != '/',
        path.len() == 0 || path[0] != '/',
    ensures
        relative_path_text(root + "/"@ + path, root) == path,
{
    reveal_strlit("file://");
    reveal_strlit("/");
    let uri = root + "/"@ + path;
    let sr = root.skip(7);
    assert(uri.take(7) =~= root.take(7));
    assert(short_uri_text(root) == sr);
    assert(uri.skip(7) =~= sr + "/"@ + path);
    assert(short_uri_text(uri) == sr + "/"@ + path);
    assert(trim_end_char(sr, '/') == sr) by {
        if sr.len() > 0 {
            assert(sr.last() == root.last());
        }
    }
    let sp = sr + "/"@ + path;
    assert(sp.take(sr.len() as int) =~= sr);
    assert(sp.skip(sr.len() as int) =~= "/"@ + path);
    let q = "/"@ + path;
    assert(q.take(1) =~= "/"@);
    assert(q.skip(1) =~= path);
}

} // verus!
