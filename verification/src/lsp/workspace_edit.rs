//! Applying text edits to document contents.
use crate::lsp::types::{DocumentChange, Position, ResourceOperation, TextEdit, WorkspaceEdit};
use std::collections::HashMap;
use crate::text::string_from_utf8;
use vstd::prelude::*;
use vstd::string::*;
use vstd::utf8::*;

verus! {

/// What applying a workspace edit changed.
#[derive(Debug, Clone)]
pub struct ApplyResult {
    /// (uri, edit_count) for each file with text edits
    pub files_changed: Vec<(String, usize)>,
    /// URIs of files created
    pub files_created: Vec<String>,
    /// (old_uri, new_uri) for renamed files
    pub files_renamed: Vec<(String, String)>,
}

impl Default for ApplyResult {
    fn default() -> (r: Self)
        ensures
            r.files_changed@.len() == 0,
            r.files_created@.len() == 0,
            r.files_renamed@.len() == 0,
    {
        ApplyResult { files_changed: Vec::new(), files_created: Vec::new(), files_renamed: Vec::new() }
    }
}

/// Sum of the edit counts of `changed`.
pub open spec fn edit_count_sum(changed: Seq<(String, usize)>) -> nat
    decreases changed.len(),
{
    if changed.len() == 0 {
        0
    } else {
        edit_count_sum(changed.drop_last()) + changed.last().1 as nat
    }
}

impl ApplyResult {
    /// Total number of text edits over all changed files.
    pub fn total_edits(&self) -> (total: usize)
        requires
            edit_count_sum(self.files_changed@) <= usize::MAX,
        ensures
            total == edit_count_sum(self.files_changed@),
    {
        let mut total: usize = 0;
        let n = self.files_changed.len();
        let mut i: usize = 0;
        while i < n
            invariant
                n == self.files_changed@.len(),
                i <= n,
                total == edit_count_sum(self.files_changed@.take(i as int)),
                edit_count_sum(self.files_changed@) <= usize::MAX,
            decreases n - i,
        {
            proof {
                lemma_edit_count_sum_prefix(self.files_changed@, i as int + 1);
                assert(self.files_changed@.take(i + 1).drop_last() =~= self.files_changed@.take(i as int));
            }
            total = total + self.files_changed[i].1;
            i = i + 1;
        }
        assert(self.files_changed@.take(n as int) =~= self.files_changed@);
        total
    }

    /// The total number of text edits, or none when it does not fit a `usize`.
    pub fn checked_total_edits(&self) -> (r: Option<usize>)
        ensures
            match r {
                Some(t) => t == edit_count_sum(self.files_changed@),
                None => edit_count_sum(self.files_changed@) > usize::MAX,
            },
    {
        let mut total: usize = 0;
        let n = self.files_changed.len();
        let mut i: usize = 0;
        while i < n
            invariant
                n == self.files_changed@.len(),
                i <= n,
                total == edit_count_sum(self.files_changed@.take(i as int)),
            decreases n - i,
        {
            proof {
                assert(self.files_changed@.take(i + 1).drop_last() =~= self.files_changed@.take(i as int));
            }
            if self.files_changed[i].1 > usize::MAX - total {
                proof {
                    lemma_edit_count_sum_prefix(self.files_changed@, i as int + 1);
                }
                return None;
            }
            total = total + self.files_changed[i].1;
            i = i + 1;
        }
        assert(self.files_changed@.take(n as int) =~= self.files_changed@);
        Some(total)
    }
}

proof fn lemma_edit_count_sum_prefix(s: Seq<(String, usize)>, k: int)
    requires
        0 <= k <= s.len(),
    ensures
        edit_count_sum(s.take(k)) <= edit_count_sum(s),
    decreases s.len(),
{
    if k < s.len() {
        assert(s.drop_last().take(k) =~= s.take(k));
        lemma_edit_count_sum_prefix(s.drop_last(), k);
    } else {
        assert(s.take(k) =~= s);
    }
}

// ---------------------------------------------------------------------------
// Positions to byte offsets
// ---------------------------------------------------------------------------

/// Index of the first newline byte at or after `i`, or the length when there is none.
pub open spec fn line_end(b: Seq<u8>, i: nat) -> nat
    decreases b.len() - i,
{
    if i >= b.len() {
        b.len()
    } else if b[i as int] == 10u8 {
        i
    } else {
        line_end(b, i + 1)
    }
}

pub proof fn lemma_line_end_bounds(b: Seq<u8>, i: nat)
    requires
        i <= b.len(),
    ensures
        i <= line_end(b, i) <= b.len(),
    decreases b.len() - i,
{
    if i < b.len() && b[i as int] != 10u8 {
        lemma_line_end_bounds(b, i + 1);
    }
}

/// Byte offset of character `ch` of the `line`-th line counted from the line that starts at
/// byte `i`. A character past the end of its line is clamped to the line's end; a line past
/// the last one gives the length of `b`.
pub open spec fn offset_in_lines(b: Seq<u8>, i: nat, line: nat, ch: nat) -> int
    decreases b.len() - i,
{
    let e = line_end(b, i);
    if line == 0 {
        if ch < e - i {
            (i + ch) as int
        } else {
            e as int
        }
    } else if e >= b.len() {
        b.len() as int
    } else {
        proof {
            if i <= b.len() {
                lemma_line_end_bounds(b, i);
            }
        }
        offset_in_lines(b, e + 1, (line - 1) as nat, ch)
    }
}

/// Byte offset of an LSP position in UTF-8 text, splitting lines at `\n` and counting the
/// character column in bytes.
pub open spec fn position_offset(b: Seq<u8>, pos: Position) -> int {
    offset_in_lines(b, 0, pos.line as nat, pos.character as nat)
}

pub proof fn lemma_offset_in_lines_bounds(b: Seq<u8>, i: nat, line: nat, ch: nat)
    requires
        i <= b.len(),
    ensures
        i <= offset_in_lines(b, i, line, ch) <= b.len(),
    decreases b.len() - i,
{
    lemma_line_end_bounds(b, i);
    let e = line_end(b, i);
    if line != 0 && e < b.len() {
        lemma_offset_in_lines_bounds(b, e + 1, (line - 1) as nat, ch);
    }
}

/// Byte offset of `pos` in `b`; see [`position_offset`].
pub fn byte_offset(b: &[u8], pos: &Position) -> (r: usize)
    ensures
        r == position_offset(b@, *pos),
{
    let n = b.len();
    let ch: usize = pos.character as usize;
    let mut i: usize = 0;
    let mut left: u32 = pos.line;
    loop
        invariant
            n == b@.len(),
            i <= n,
            ch == pos.character,
            offset_in_lines(b@, i as nat, left as nat, ch as nat) == position_offset(b@, *pos),
        decreases n - i,
    {
        let mut e: usize = i;
        while e < n && b[e] != 10u8
            invariant
                n == b@.len(),
                i <= e <= n,
                line_end(b@, i as nat) == line_end(b@, e as nat),
            decreases n - e,
        {
            e = e + 1;
        }
        assert(line_end(b@, e as nat) == e);
        proof {
            lemma_line_end_bounds(b@, i as nat);
        }
        if left == 0 {
            let len = e - i;
            if ch < len {
                return i + ch;
            } else {
                return e;
            }
        }
        if e >= n {
            return n;
        }
        i = e + 1;
        left = left - 1;
    }
}

/// Converts an LSP position (line, character) to a byte offset in `content`; the column is
/// clamped to its line and a line past the end gives the length of the content.
pub fn position_to_offset(content: &str, pos: &Position) -> (r: Option<usize>)
    ensures
        r == Some(position_offset(content.spec_bytes(), *pos) as usize),
        0 <= position_offset(content.spec_bytes(), *pos) <= content.spec_bytes().len(),
{
    proof {
        lemma_offset_in_lines_bounds(content.spec_bytes(), 0, pos.line as nat, pos.character as nat);
    }
    Some(byte_offset(content.as_bytes(), pos))
}


// ---------------------------------------------------------------------------
// Ordering edits
// ---------------------------------------------------------------------------

/// `a` starts strictly before `b` (by line, then character).
pub open spec fn starts_before(a: TextEdit, b: TextEdit) -> bool {
    a.range.start.line < b.range.start.line || (a.range.start.line == b.range.start.line
        && a.range.start.character < b.range.start.character)
}

/// Where `x` enters a list kept in descending start order: after every element that starts at
/// or after it.
pub open spec fn descending_slot(sorted: Seq<TextEdit>, x: TextEdit) -> nat
    decreases sorted.len(),
{
    if sorted.len() == 0 {
        0
    } else if starts_before(sorted[0], x) {
        0
    } else {
        1 + descending_slot(sorted.drop_first(), x)
    }
}

/// The edits in descending order of their start positions; edits that start at the same
/// position keep their relative order (a stable sort).
pub open spec fn sort_descending(s: Seq<TextEdit>) -> Seq<TextEdit>
    decreases s.len(),
{
    if s.len() == 0 {
        s
    } else {
        let p = sort_descending(s.drop_last());
        p.insert(descending_slot(p, s.last()) as int, s.last())
    }
}

proof fn lemma_descending_slot_bound(sorted: Seq<TextEdit>, x: TextEdit)
    ensures
        descending_slot(sorted, x) <= sorted.len(),
    decreases sorted.len(),
{
    if sorted.len() > 0 && !starts_before(sorted[0], x) {
        lemma_descending_slot_bound(sorted.drop_first(), x);
    }
}

proof fn lemma_sort_descending_len(s: Seq<TextEdit>)
    ensures
        sort_descending(s).len() == s.len(),
    decreases s.len(),
{
    if s.len() > 0 {
        lemma_sort_descending_len(s.drop_last());
        lemma_descending_slot_bound(sort_descending(s.drop_last()), s.last());
    }
}

fn copy_edit(e: &TextEdit) -> (r: TextEdit)
    ensures
        r == *e,
{
    TextEdit { range: e.range, new_text: e.new_text.clone() }
}

fn edit_starts_before(a: &TextEdit, b: &TextEdit) -> (r: bool)
    ensures
        r == starts_before(*a, *b),
{
    a.range.start.line < b.range.start.line || (a.range.start.line == b.range.start.line
        && a.range.start.character < b.range.start.character)
}

/// A copy of the edits in the order in which they are applied.
fn sort_edits_descending(edits: &[TextEdit]) -> (r: Vec<TextEdit>)
    ensures
        r@ == sort_descending(edits@),
{
    let mut sorted: Vec<TextEdit> = Vec::new();
    let n = edits.len();
    let mut k: usize = 0;
    while k < n
        invariant
            n == edits@.len(),
            k <= n,
            sorted@ == sort_descending(edits@.take(k as int)),
        decreases n - k,
    {
        let x = copy_edit(&edits[k]);
        let mut j: usize = 0;
        assert(sorted@.skip(0) =~= sorted@);
        while j < sorted.len() && !edit_starts_before(&sorted[j], &x)
            invariant
                j <= sorted@.len(),
                descending_slot(sorted@, x) == j + descending_slot(sorted@.skip(j as int), x),
            decreases sorted@.len() - j,
        {
            assert(sorted@.skip(j as int).drop_first() =~= sorted@.skip(j + 1));
            j = j + 1;
        }
        proof {
            lemma_sort_descending_len(edits@.take(k as int));
            assert(edits@.take(k + 1).drop_last() =~= edits@.take(k as int));
            assert(edits@.take(k + 1).last() == x);
        }
        sorted.insert(j, x);
        k = k + 1;
    }
    assert(edits@.take(n as int) =~= edits@);
    sorted
}

// ---------------------------------------------------------------------------
// Applying edits
// ---------------------------------------------------------------------------

/// `b` with the bytes between `start` and `end` replaced by `t`.
pub open spec fn splice_bytes(b: Seq<u8>, start: int, end: int, t: Seq<u8>) -> Seq<u8> {
    b.subrange(0, start) + t + b.subrange(end, b.len() as int)
}

/// One edit applied to UTF-8 bytes, its positions taken in those bytes.
pub open spec fn apply_edit_bytes(b: Seq<u8>, e: TextEdit) -> Seq<u8> {
    splice_bytes(
        b,
        position_offset(b, e.range.start),
        position_offset(b, e.range.end),
        encode_utf8(e.new_text@),
    )
}

/// The edit's start does not lie after its end and both fall on character boundaries of `b`,
/// so that replacing that byte range cannot fail.
pub open spec fn edit_applies(b: Seq<u8>, e: TextEdit) -> bool {
    let s = position_offset(b, e.range.start);
    let t = position_offset(b, e.range.end);
    &&& s <= t
    &&& is_char_boundary(b, s)
    &&& is_char_boundary(b, t)
}

/// The edits applied one after another, in sequence order.
pub open spec fn apply_edits_bytes(b: Seq<u8>, es: Seq<TextEdit>) -> Seq<u8>
    decreases es.len(),
{
    if es.len() == 0 {
        b
    } else {
        apply_edit_bytes(apply_edits_bytes(b, es.drop_last()), es.last())
    }
}

/// Every edit, in sequence order, applies to the text that the edits before it left.
pub open spec fn edits_apply(b: Seq<u8>, es: Seq<TextEdit>) -> bool
    decreases es.len(),
{
    es.len() == 0 || (edits_apply(b, es.drop_last()) && edit_applies(
        apply_edits_bytes(b, es.drop_last()),
        es.last(),
    ))
}

/// UTF-8 bytes of `content` after the edits, applied from the last start position to the first.
pub open spec fn text_edits_result(content: Seq<char>, edits: Seq<TextEdit>) -> Seq<u8> {
    apply_edits_bytes(encode_utf8(content), sort_descending(edits))
}

/// Applying the edits to `content` replaces only well-formed byte ranges.
pub open spec fn text_edits_apply(content: Seq<char>, edits: Seq<TextEdit>) -> bool {
    edits_apply(encode_utf8(content), sort_descending(edits))
}

proof fn lemma_edits_apply_prefix(b: Seq<u8>, es: Seq<TextEdit>, k: int)
    requires
        0 <= k <= es.len(),
        edits_apply(b, es),
    ensures
        edits_apply(b, es.take(k)),
    decreases es.len(),
{
    if k < es.len() {
        assert(es.drop_last().take(k) =~= es.take(k));
        lemma_edits_apply_prefix(b, es.drop_last(), k);
    } else {
        assert(es.take(k) =~= es);
    }
}

fn is_boundary(b: &Vec<u8>, i: usize) -> (r: bool)
    requires
        valid_utf8(b@),
        i <= b@.len(),
    ensures
        r == is_char_boundary(b@, i as int),
{
    proof {
        is_char_boundary_start_end_of_seq(b@);
    }
    if i == b.len() {
        true
    } else {
        proof {
            is_char_boundary_iff_not_is_continuation_byte(b@, i as int);
        }
        let x = b[i];
        !(0x80u8 <= x && x <= 0xbfu8)
    }
}

fn splice_vec(b: &Vec<u8>, start: usize, end: usize, t: &[u8]) -> (r: Vec<u8>)
    requires
        start <= end <= b@.len(),
    ensures
        r@ == splice_bytes(b@, start as int, end as int, t@),
{
    let mut r: Vec<u8> = Vec::new();
    let mut i: usize = 0;
    while i < start
        invariant
            i <= start <= end <= b@.len(),
            r@ =~= b@.subrange(0, i as int),
        decreases start - i,
    {
        r.push(b[i]);
        i = i + 1;
    }
    let mut j: usize = 0;
    while j < t.len()
        invariant
            j <= t@.len(),
            r@ =~= b@.subrange(0, start as int) + t@.take(j as int),
        decreases t@.len() - j,
    {
        r.push(t[j]);
        j = j + 1;
    }
    assert(t@.take(t@.len() as int) =~= t@);
    let mut i: usize = end;
    while i < b.len()
        invariant
            start <= end <= i <= b@.len(),
            r@ =~= b@.subrange(0, start as int) + t@ + b@.subrange(end as int, i as int),
        decreases b@.len() - i,
    {
        r.push(b[i]);
        i = i + 1;
    }
    r
}

/// Applies `edits` to `content`, from the last start position to the first so that no edit
/// moves the text that a later one addresses. Returns `None` exactly when some edit, in that
/// order, would replace a byte range that runs backwards or splits a character.
pub fn try_apply_text_edits(content: &str, edits: &[TextEdit]) -> (r: Option<String>)
    ensures
        r is Some <==> text_edits_apply(content@, edits@),
        r matches Some(s) ==> encode_utf8(s@) == text_edits_result(content@, edits@),
{
    let ghost b0 = encode_utf8(content@);
    let sorted = sort_edits_descending(edits);
    let mut cur: Vec<u8> = content.as_bytes_vec();
    proof {
        encode_utf8_valid_utf8(content@);
    }
    let n = sorted.len();
    let mut k: usize = 0;
    while k < n
        invariant
            n == sorted@.len(),
            k <= n,
            sorted@ == sort_descending(edits@),
            b0 == encode_utf8(content@),
            cur@ == apply_edits_bytes(b0, sorted@.take(k as int)),
            edits_apply(b0, sorted@.take(k as int)),
            valid_utf8(cur@),
        decreases n - k,
    {
        let e = &sorted[k];
        let s = byte_offset(cur.as_slice(), &e.range.start);
        let t = byte_offset(cur.as_slice(), &e.range.end);
        proof {
            lemma_offset_in_lines_bounds(cur@, 0, e.range.start.line as nat, e.range.start.character as nat);
            lemma_offset_in_lines_bounds(cur@, 0, e.range.end.line as nat, e.range.end.character as nat);
            assert(sorted@.take(k + 1).drop_last() =~= sorted@.take(k as int));
            assert(sorted@.take(k + 1).last() == *e);
        }
        if !(s <= t && is_boundary(&cur, s) && is_boundary(&cur, t)) {
            proof {
                if edits_apply(b0, sorted@) {
                    lemma_edits_apply_prefix(b0, sorted@, k + 1);
                    let p = sorted@.take(k + 1);
                    assert(edits_apply(b0, p));
                    assert(p.drop_last() =~= sorted@.take(k as int));
                    assert(apply_edits_bytes(b0, p.drop_last()) == cur@);
                    assert(edit_applies(cur@, *e));
                    assert(false);
                }
            }
            return None;
        }
        let text = e.new_text.as_str().as_bytes();
        proof {
            valid_utf8_split(cur@, s as int);
            valid_utf8_split(cur@, t as int);
            encode_utf8_valid_utf8(e.new_text@);
            valid_utf8_concat(cur@.subrange(0, s as int), text@);
            valid_utf8_concat(cur@.subrange(0, s as int) + text@, cur@.subrange(t as int, cur@.len() as int));
        }
        cur = splice_vec(&cur, s, t, text);
        k = k + 1;
    }
    assert(sorted@.take(n as int) =~= sorted@);
    Some(string_from_utf8(cur))
}

/// Applies text edits to a string, in reverse order of their start positions so that earlier
/// edits do not invalidate later positions.
pub fn apply_text_edits(content: &str, edits: &[TextEdit]) -> (r: String)
    requires
        text_edits_apply(content@, edits@),
    ensures
        encode_utf8(r@) == text_edits_result(content@, edits@),
{
    match try_apply_text_edits(content, edits) {
        Some(s) => s,
        None => {
            assert(false);
            String::new()
        },
    }
}

// ---------------------------------------------------------------------------
// The file operations of a workspace edit
// ---------------------------------------------------------------------------

/// One file operation that applying a workspace edit performs.
#[derive(Debug)]
pub enum FileAction {
    /// Apply the text edits to the file's content.
    Rewrite { uri: String, edits: Vec<TextEdit> },
    /// Create an empty file, with its directory.
    Create { uri: String },
    /// Move a file, creating the new directory.
    Rename { old_uri: String, new_uri: String },
    /// Remove the file if it exists.
    Delete { uri: String },
}

/// `a` performs the document change `c`.
pub open spec fn action_for_change(a: FileAction, c: DocumentChange) -> bool {
    match (a, c) {
        (FileAction::Rewrite { uri, edits }, DocumentChange::Edit(tde)) => uri@
            == tde.text_document.uri@ && edits@ == tde.edits@,
        (FileAction::Create { uri }, DocumentChange::Operation(ResourceOperation::Create { uri: u })) => uri@
            == u@,
        (
            FileAction::Rename { old_uri, new_uri },
            DocumentChange::Operation(ResourceOperation::Rename { old_uri: o, new_uri: n }),
        ) => old_uri@ == o@ && new_uri@ == n@,
        (FileAction::Delete { uri }, DocumentChange::Operation(ResourceOperation::Delete { uri: u })) => uri@
            == u@,
        _ => false,
    }
}

/// `a` rewrites the file `uri` with `edits`.
pub open spec fn rewrites(a: FileAction, uri: Seq<char>, edits: Seq<TextEdit>) -> bool {
    match a {
        FileAction::Rewrite { uri: u, edits: e } => u@ == uri && e@ == edits,
        _ => false,
    }
}

/// `a` rewrites one of the files of `m` with that file's edits.
pub open spec fn rewrites_entry_of(a: FileAction, m: Map<String, Vec<TextEdit>>) -> bool {
    exists|u: String| #[trigger] m.contains_key(u) && rewrites(a, u@, m[u]@)
}

/// The entries of the simple form of a workspace edit, each once, in the order in which
/// `HashMap::iter` visits them. That order depends on the map's hasher, so it is left unsaid
/// here.
#[verifier::external_body]
fn change_entries(m: &HashMap<String, Vec<TextEdit>>) -> (r: Vec<(&String, &Vec<TextEdit>)>)
    ensures
        r@.len() == m@.dom().len(),
        forall|i: int|
            0 <= i < r@.len() ==> #[trigger] m@.contains_key(*r@[i].0) && m@[*r@[i].0] == *r@[i].1,
        forall|i: int, j: int| 0 <= i < j < r@.len() ==> (#[trigger] r@[i]).0@ != (#[trigger] r@[j]).0@,
{
    m.iter().collect()
}

fn copy_edits(edits: &Vec<TextEdit>) -> (r: Vec<TextEdit>)
    ensures
        r@ == edits@,
{
    let mut r: Vec<TextEdit> = Vec::new();
    let mut i: usize = 0;
    while i < edits.len()
        invariant
            i <= edits@.len(),
            r@ =~= edits@.take(i as int),
        decreases edits@.len() - i,
    {
        r.push(copy_edit(&edits[i]));
        assert(edits@.take(i + 1) =~= edits@.take(i as int).push(edits@[i as int]));
        i = i + 1;
    }
    assert(edits@.take(edits@.len() as int) =~= edits@);
    r
}

/// The operation that performs one document change.
fn action_of_change(c: &DocumentChange) -> (r: FileAction)
    ensures
        action_for_change(r, *c),
{
    match c {
        DocumentChange::Edit(tde) => FileAction::Rewrite {
            uri: tde.text_document.uri.clone(),
            edits: copy_edits(&tde.edits),
        },
        DocumentChange::Operation(op) => match op {
            ResourceOperation::Create { uri } => FileAction::Create { uri: uri.clone() },
            ResourceOperation::Rename { old_uri, new_uri } => FileAction::Rename {
                old_uri: old_uri.clone(),
                new_uri: new_uri.clone(),
            },
            ResourceOperation::Delete { uri } => FileAction::Delete { uri: uri.clone() },
        },
    }
}

/// The file operations that applying `edit` performs, in order: one per document change of
/// the rich form when it is there; otherwise one rewrite per file of the simple form, each
/// file once, in the map's iteration order; otherwise none.
pub fn file_actions(edit: &WorkspaceEdit) -> (r: Vec<FileAction>)
    ensures
        edit.document_changes matches Some(dc) ==> r@.len() == dc@.len() && forall|i: int|
            0 <= i < r@.len() ==> action_for_change(#[trigger] r@[i], dc@[i]),
        edit.document_changes is None ==> match edit.changes {
            Some(m) => {
                &&& r@.len() == m@.dom().len()
                &&& forall|i: int| 0 <= i < r@.len() ==> rewrites_entry_of(#[trigger] r@[i], m@)
                &&& forall|i: int, j: int|
                    0 <= i < j < r@.len() ==> (#[trigger] r@[i])->Rewrite_uri@ != (
                    #[trigger] r@[j])->Rewrite_uri@
            },
            None => r@.len() == 0,
        },
{
    let mut r: Vec<FileAction> = Vec::new();
    match &edit.document_changes {
        Some(dc) => {
            let mut i: usize = 0;
            while i < dc.len()
                invariant
                    i <= dc@.len(),
                    r@.len() == i,
                    forall|k: int| 0 <= k < i ==> action_for_change(#[trigger] r@[k], dc@[k]),
                decreases dc@.len() - i,
            {
                r.push(action_of_change(&dc[i]));
                i = i + 1;
            }
        },
        None => match &edit.changes {
            Some(m) => {
                let entries = change_entries(m);
                let mut i: usize = 0;
                while i < entries.len()
                    invariant
                        i <= entries@.len(),
                        r@.len() == i,
                        forall|k: int|
                            0 <= k < entries@.len() ==> #[trigger] m@.contains_key(*entries@[k].0)
                                && m@[*entries@[k].0] == *entries@[k].1,
                        forall|a: int, b: int|
                            0 <= a < b < entries@.len() ==> (#[trigger] entries@[a]).0@ != (
                            #[trigger] entries@[b]).0@,
                        forall|k: int| 0 <= k < i ==> rewrites(#[trigger] r@[k], entries@[k].0@, entries@[k].1@),
                    decreases entries@.len() - i,
                {
                    let (u, es) = entries[i];
                    r.push(FileAction::Rewrite { uri: u.clone(), edits: copy_edits(es) });
                    i = i + 1;
                }
                assert forall|k: int| 0 <= k < r@.len() implies rewrites_entry_of(#[trigger] r@[k], m@) by {
                    assert(m@.contains_key(*entries@[k].0));
                }
                assert forall|a: int, b: int| 0 <= a < b < r@.len() implies (#[trigger] r@[a])->Rewrite_uri@
                    != (#[trigger] r@[b])->Rewrite_uri@ by {
                    assert(entries@[a].0@ != entries@[b].0@);
                }

            },
            None => {},
        },
    }
    r
}

/// Records in `result` what the operation changed, once it is done: a rewrite counts its
/// file and edits, a creation or a move its files; a deletion is not recorded.
pub fn record_action(result: &mut ApplyResult, action: &FileAction)
    ensures
        match *action {
            FileAction::Rewrite { uri, edits } => {
                &&& final(result).files_changed@.len() == old(result).files_changed@.len() + 1
                &&& final(result).files_changed@.drop_last() == old(result).files_changed@
                &&& final(result).files_changed@.last().0@ == uri@
                &&& final(result).files_changed@.last().1 == edits@.len()
                &&& final(result).files_created@ == old(result).files_created@
                &&& final(result).files_renamed@ == old(result).files_renamed@
            },
            FileAction::Create { uri } => {
                &&& final(result).files_changed@ == old(result).files_changed@
                &&& final(result).files_created@.len() == old(result).files_created@.len() + 1
                &&& final(result).files_created@.drop_last() == old(result).files_created@
                &&& final(result).files_created@.last()@ == uri@
                &&& final(result).files_renamed@ == old(result).files_renamed@
            },
            FileAction::Rename { old_uri, new_uri } => {
                &&& final(result).files_changed@ == old(result).files_changed@
                &&& final(result).files_created@ == old(result).files_created@
                &&& final(result).files_renamed@.len() == old(result).files_renamed@.len() + 1
                &&& final(result).files_renamed@.drop_last() == old(result).files_renamed@
                &&& final(result).files_renamed@.last().0@ == old_uri@
                &&& final(result).files_renamed@.last().1@ == new_uri@
            },
            FileAction::Delete { .. } => {
                &&& final(result).files_changed@ == old(result).files_changed@
                &&& final(result).files_created@ == old(result).files_created@
                &&& final(result).files_renamed@ == old(result).files_renamed@
            },
        },
{
    match action {
        FileAction::Rewrite { uri, edits } => {
            result.files_changed.push((uri.clone(), edits.len()));
            assert(result.files_changed@.drop_last() =~= old(result).files_changed@);
        },
        FileAction::Create { uri } => {
            result.files_created.push(uri.clone());
            assert(result.files_created@.drop_last() =~= old(result).files_created@);
        },
        FileAction::Rename { old_uri, new_uri } => {
            result.files_renamed.push((old_uri.clone(), new_uri.clone()));
            assert(result.files_renamed@.drop_last() =~= old(result).files_renamed@);
        },
        FileAction::Delete { .. } => {},
    }
}

// ---------------------------------------------------------------------------
// Laws
// ---------------------------------------------------------------------------

/// No edit starts before one that comes after it.
pub open spec fn descending(s: Seq<TextEdit>) -> bool {
    forall|i: int, j: int| 0 <= i < j < s.len() ==> !starts_before(#[trigger] s[i], #[trigger] s[j])
}

proof fn lemma_descending_slot_splits(p: Seq<TextEdit>, x: TextEdit)
    ensures
        forall|i: int| 0 <= i < descending_slot(p, x) ==> !starts_before(#[trigger] p[i], x),
        descending_slot(p, x) < p.len() ==> starts_before(p[descending_slot(p, x) as int], x),
    decreases p.len(),
{
    lemma_descending_slot_bound(p, x);
    if p.len() > 0 && !starts_before(p[0], x) {
        lemma_descending_slot_splits(p.drop_first(), x);
        assert forall|i: int| 0 <= i < descending_slot(p, x) implies !starts_before(
            #[trigger] p[i],
            x,
        ) by {
            if i > 0 {
                assert(p[i] == p.drop_first()[i - 1]);
            }
        }
    }
}

/// Edits are applied from the last start position to the first: the order they are applied in
/// is descending, and it holds every edit given, each as often as it was given.
pub proof fn law_edits_applied_last_first(s: Seq<TextEdit>)
    ensures
        descending(sort_descending(s)),
        sort_descending(s).to_multiset() == s.to_multiset(),
    decreases s.len(),
{
    broadcast use vstd::seq_lib::group_to_multiset_ensures;

    if s.len() > 0 {
        let p = sort_descending(s.drop_last());
        let x = s.last();
        law_edits_applied_last_first(s.drop_last());
        lemma_descending_slot_splits(p, x);
        lemma_descending_slot_bound(p, x);
        let k = descending_slot(p, x) as int;
        let q = p.insert(k, x);
        assert(sort_descending(s) == q);
        assert forall|i: int, j: int| 0 <= i < j < q.len() implies !starts_before(
            #[trigger] q[i],
            #[trigger] q[j],
        ) by {
            if j < k {
                assert(q[i] == p[i] && q[j] == p[j]);
            } else if j == k {
                assert(q[i] == p[i]);
            } else if i < k {
                assert(q[i] == p[i] && q[j] == p[j - 1]);
            } else if i == k {
                assert(q[j] == p[j - 1]);
                assert(starts_before(p[k], x));
                if j - 1 > k {
                    assert(!starts_before(p[k], p[j - 1]));
                }
            } else {
                assert(q[i] == p[i - 1] && q[j] == p[j - 1]);
            }
        }
        assert(q.remove(k) =~= p);
        assert(q[k] == x);
        assert(q.to_multiset().remove(x) =~= p.to_multiset());
        assert(q.to_multiset().count(x) > 0) by {
            assert(q.contains(x));
        }
        assert(q.to_multiset() =~= p.to_multiset().insert(x));
        assert(s.drop_last().push(x) =~= s);
    }
}

/// Without edits the content comes back unchanged.
pub proof fn law_no_edits_keep_content(content: Seq<char>)
    ensures
        text_edits_apply(content, seq![]),
        text_edits_result(content, seq![]) == encode_utf8(content),
{
}

} // verus!
