//! What applying edits one after another amounts to: for edits that do not overlap, each
//! replaces the text its positions name in the content as it was before any edit.
use crate::lsp::types::{Position, TextEdit};
use crate::lsp::workspace_edit::{
    apply_edit_bytes, apply_edits_bytes, law_edits_applied_last_first, lemma_line_end_bounds,
    lemma_offset_in_lines_bounds, line_end, offset_in_lines, position_offset, sort_descending,
    edits_apply, splice_bytes, starts_before, text_edits_apply, text_edits_result,
};
use vstd::prelude::*;
use vstd::utf8::*;

verus! {

proof fn lemma_line_end_scan(b: Seq<u8>, i: nat)
    requires
        i <= b.len(),
    ensures
        forall|j: int| i <= j < line_end(b, i) ==> b[j] != 10u8,
        line_end(b, i) < b.len() ==> b[line_end(b, i) as int] == 10u8,
    decreases b.len() - i,
{
    if i < b.len() && b[i as int] != 10u8 {
        lemma_line_end_scan(b, i + 1);
    }
}

proof fn lemma_line_end_reaches(b: Seq<u8>, i: nat, m: nat)
    requires
        i <= m <= b.len(),
        forall|j: int| i <= j < m ==> b[j] != 10u8,
    ensures
        line_end(b, i) >= m,
    decreases b.len() - i,
{
    lemma_line_end_bounds(b, i);
    if i < m {
        lemma_line_end_reaches(b, i + 1, m);
    }
}

/// The position names a place of the text without clamping: its line exists and its column
/// does not pass the line's end.
pub open spec fn inside_lines(b: Seq<u8>, i: nat, line: nat, ch: nat) -> bool
    decreases b.len() - i,
{
    let e = line_end(b, i);
    if line == 0 {
        ch <= e - i
    } else if e >= b.len() {
        false
    } else {
        proof {
            if i <= b.len() {
                lemma_line_end_bounds(b, i);
            }
        }
        inside_lines(b, e + 1, (line - 1) as nat, ch)
    }
}

/// The position names a place of the text `b` without clamping.
pub open spec fn position_inside(b: Seq<u8>, pos: Position) -> bool {
    inside_lines(b, 0, pos.line as nat, pos.character as nat)
}

/// Two texts that agree up to `k` give the same offset to every position inside the first that
/// falls at or before `k`.
proof fn lemma_offset_stable(b: Seq<u8>, b2: Seq<u8>, k: nat, i: nat, line: nat, ch: nat)
    requires
        i <= b.len(),
        i <= k <= b.len(),
        k <= b2.len(),
        b2.take(k as int) == b.take(k as int),
        inside_lines(b, i, line, ch),
        offset_in_lines(b, i, line, ch) <= k,
    ensures
        offset_in_lines(b2, i, line, ch) == offset_in_lines(b, i, line, ch),
    decreases b.len() - i,
{
    lemma_line_end_bounds(b, i);
    lemma_line_end_scan(b, i);
    let e = line_end(b, i);
    assert forall|j: int| 0 <= j < k implies b2[j] == b[j] by {
        assert(b2.take(k as int)[j] == b2[j]);
        assert(b.take(k as int)[j] == b[j]);
        assert(b2.take(k as int)[j] == b.take(k as int)[j]);
    }
    if line == 0 {
        let m = i + ch;
        assert(m <= k);
        lemma_line_end_reaches(b2, i, m);
        lemma_line_end_bounds(b2, i);
    } else {
        lemma_offset_in_lines_bounds(b, e + 1, (line - 1) as nat, ch);
        assert(e < k);
        assert forall|j: int| i <= j < e implies b2[j] != 10u8 by {
        }
        lemma_line_end_reaches(b2, i, e);
        lemma_line_end_scan(b2, i);
        assert(b2[e as int] == 10u8);
        assert(line_end(b2, i) == e);
        lemma_offset_stable(b, b2, k, e + 1, (line - 1) as nat, ch);
    }
}

/// Offset of an edit's start in `b`.
pub open spec fn start_offset(b: Seq<u8>, e: TextEdit) -> int {
    position_offset(b, e.range.start)
}

/// Offset of an edit's end in `b`.
pub open spec fn end_offset(b: Seq<u8>, e: TextEdit) -> int {
    position_offset(b, e.range.end)
}

/// `b` with every edit replacing the bytes between the offsets its positions have in `b`
/// itself, before any edit: what the edits mean when none sees another's shift.
pub open spec fn replace_at_offsets(b: Seq<u8>, es: Seq<TextEdit>) -> Seq<u8>
    decreases es.len(),
{
    if es.len() == 0 {
        b
    } else {
        splice_bytes(
            replace_at_offsets(b, es.drop_last()),
            start_offset(b, es.last()),
            end_offset(b, es.last()),
            encode_utf8(es.last().new_text@),
        )
    }
}

/// Every edit names places inside `b` and runs forwards, and each edit lies wholly before the
/// edits listed ahead of it (edits may touch).
pub open spec fn apart_descending(b: Seq<u8>, es: Seq<TextEdit>) -> bool {
    &&& forall|i: int|
        0 <= i < es.len() ==> position_inside(b, (#[trigger] es[i]).range.start) && position_inside(
            b,
            es[i].range.end,
        ) && start_offset(b, es[i]) <= end_offset(b, es[i])
    &&& forall|i: int, j: int|
        0 <= i < j < es.len() ==> end_offset(b, #[trigger] es[j]) <= start_offset(b, #[trigger] es[i])
}

proof fn lemma_replace_keeps_prefix(b: Seq<u8>, es: Seq<TextEdit>, m: int)
    requires
        apart_descending(b, es),
        0 <= m <= b.len(),
        forall|i: int| 0 <= i < es.len() ==> m <= start_offset(b, #[trigger] es[i]),
    ensures
        replace_at_offsets(b, es).len() >= m,
        replace_at_offsets(b, es).take(m) == b.take(m),
    decreases es.len(),
{
    if es.len() > 0 {
        let x = es.last();
        let rest = es.drop_last();
        assert(es[es.len() - 1] == x);
        lemma_offset_in_lines_bounds(b, 0, x.range.end.line as nat, x.range.end.character as nat);
        assert(apart_descending(b, rest)) by {
            assert forall|i: int| 0 <= i < rest.len() implies position_inside(b, (#[trigger] rest[i]).range.start)
                && position_inside(b, rest[i].range.end) && start_offset(b, rest[i]) <= end_offset(b, rest[i]) by {
                assert(rest[i] == es[i]);
            }
            assert forall|i: int, j: int| 0 <= i < j < rest.len() implies end_offset(b, #[trigger] rest[j])
                <= start_offset(b, #[trigger] rest[i]) by {
                assert(rest[i] == es[i] && rest[j] == es[j]);
            }
        }
        assert forall|i: int| 0 <= i < rest.len() implies end_offset(b, x) <= start_offset(b, #[trigger] rest[i]) by {
            assert(rest[i] == es[i]);
        }
        lemma_replace_keeps_prefix(b, rest, end_offset(b, x));
        let r = replace_at_offsets(b, rest);
        let s0 = start_offset(b, x);
        let e0 = end_offset(b, x);
        let out = splice_bytes(r, s0, e0, encode_utf8(x.new_text@));
        assert(out.take(m) =~= r.take(m)) by {
            assert forall|j: int| 0 <= j < m implies out[j] == r[j] by {
                assert(out[j] == r.subrange(0, s0)[j]);
            }
        }
        assert(r.take(m) =~= b.take(m)) by {
            assert forall|j: int| 0 <= j < m implies r[j] == b[j] by {
                assert(r.take(e0)[j] == b.take(e0)[j]);
            }
        }
    }
}

/// Edits applied one after another, each at the offsets of the text the ones before left,
/// amount to replacing at the offsets of the untouched text when each edit lies before the
/// ones applied ahead of it.
pub proof fn law_apart_edits_replace_at_original_offsets(b: Seq<u8>, es: Seq<TextEdit>)
    requires
        apart_descending(b, es),
    ensures
        apply_edits_bytes(b, es) == replace_at_offsets(b, es),
    decreases es.len(),
{
    if es.len() > 0 {
        let x = es.last();
        let rest = es.drop_last();
        assert(es[es.len() - 1] == x);
        assert(apart_descending(b, rest)) by {
            assert forall|i: int| 0 <= i < rest.len() implies position_inside(b, (#[trigger] rest[i]).range.start)
                && position_inside(b, rest[i].range.end) && start_offset(b, rest[i]) <= end_offset(b, rest[i]) by {
                assert(rest[i] == es[i]);
            }
            assert forall|i: int, j: int| 0 <= i < j < rest.len() implies end_offset(b, #[trigger] rest[j])
                <= start_offset(b, #[trigger] rest[i]) by {
                assert(rest[i] == es[i] && rest[j] == es[j]);
            }
        }
        law_apart_edits_replace_at_original_offsets(b, rest);
        lemma_offset_in_lines_bounds(b, 0, x.range.end.line as nat, x.range.end.character as nat);
        assert forall|i: int| 0 <= i < rest.len() implies end_offset(b, x) <= start_offset(b, #[trigger] rest[i]) by {
            assert(rest[i] == es[i]);
        }
        let k = end_offset(b, x);
        lemma_replace_keeps_prefix(b, rest, k);
        let r = replace_at_offsets(b, rest);
        lemma_offset_stable(b, r, k as nat, 0, x.range.start.line as nat, x.range.start.character as nat);
        lemma_offset_stable(b, r, k as nat, 0, x.range.end.line as nat, x.range.end.character as nat);
        assert(apply_edit_bytes(r, x) == splice_bytes(r, start_offset(b, x), end_offset(b, x), encode_utf8(x.new_text@)));
    }
}

proof fn lemma_offset_monotone(b: Seq<u8>, i: nat, l1: nat, c1: nat, l2: nat, c2: nat)
    requires
        i <= b.len(),
        inside_lines(b, i, l1, c1),
        inside_lines(b, i, l2, c2),
        l1 < l2 || (l1 == l2 && c1 < c2),
    ensures
        offset_in_lines(b, i, l1, c1) < offset_in_lines(b, i, l2, c2),
    decreases b.len() - i,
{
    lemma_line_end_bounds(b, i);
    let e = line_end(b, i);
    if l1 > 0 {
        lemma_offset_monotone(b, e + 1, (l1 - 1) as nat, c1, (l2 - 1) as nat, c2);
    } else if l2 > 0 {
        lemma_offset_in_lines_bounds(b, e + 1, (l2 - 1) as nat, c2);
    }
}

/// Every edit names places inside `b` and runs forwards; no two edits start at the same
/// position, and no two overlap (they may touch).
pub open spec fn apart_edits(b: Seq<u8>, es: Seq<TextEdit>) -> bool {
    &&& forall|i: int|
        0 <= i < es.len() ==> position_inside(b, (#[trigger] es[i]).range.start) && position_inside(
            b,
            es[i].range.end,
        ) && start_offset(b, es[i]) <= end_offset(b, es[i])
    &&& forall|i: int, j: int|
        0 <= i < es.len() && 0 <= j < es.len() && i != j ==> (#[trigger] es[i]).range.start
            != (#[trigger] es[j]).range.start && (end_offset(b, es[i]) <= start_offset(b, es[j])
            || end_offset(b, es[j]) <= start_offset(b, es[i]))
}

/// Strictly descending start positions.
pub open spec fn strictly_descending(s: Seq<TextEdit>) -> bool {
    forall|i: int, j: int| 0 <= i < j < s.len() ==> starts_before(#[trigger] s[j], #[trigger] s[i])
}

proof fn lemma_index_of_member(s: Seq<TextEdit>, x: TextEdit) -> (p: int)
    requires
        s.contains(x),
    ensures
        0 <= p < s.len() && s[p] == x,
{
    choose|p: int| 0 <= p < s.len() && s[p] == x
}

proof fn lemma_sorted_apart(b: Seq<u8>, es: Seq<TextEdit>)
    requires
        apart_edits(b, es),
    ensures
        apart_descending(b, sort_descending(es)),
        strictly_descending(sort_descending(es)),
        sort_descending(es).to_multiset() == es.to_multiset(),
{
    broadcast use vstd::seq_lib::group_to_multiset_ensures;

    let s = sort_descending(es);
    law_edits_applied_last_first(es);
    assert(es.no_duplicates()) by {
        assert forall|i: int, j: int| 0 <= i < es.len() && 0 <= j < es.len() && i != j implies es[i]
            != es[j] by {
            assert(es[i].range.start != es[j].range.start);
        }
    }
    es.lemma_multiset_has_no_duplicates();
    s.lemma_multiset_has_no_duplicates_conv();
    assert forall|i: int| 0 <= i < s.len() implies es.contains(#[trigger] s[i]) by {
        assert(s.contains(s[i]));
        assert(s.to_multiset().count(s[i]) > 0);
    }
    assert forall|i: int| 0 <= i < s.len() implies position_inside(b, (#[trigger] s[i]).range.start)
        && position_inside(b, s[i].range.end) && start_offset(b, s[i]) <= end_offset(b, s[i]) by {
        let p = lemma_index_of_member(es, s[i]);
    }
    assert forall|i: int, j: int| 0 <= i < j < s.len() implies end_offset(b, #[trigger] s[j])
        <= start_offset(b, #[trigger] s[i]) && starts_before(s[j], s[i]) by {
        let p = lemma_index_of_member(es, s[i]);
        let q = lemma_index_of_member(es, s[j]);
        assert(s[i] != s[j]);
        assert(p != q);
        assert(!starts_before(s[i], s[j]));
        assert(starts_before(s[j], s[i]));
        lemma_offset_monotone(
            b,
            0,
            s[j].range.start.line as nat,
            s[j].range.start.character as nat,
            s[i].range.start.line as nat,
            s[i].range.start.character as nat,
        );
    }
}

/// Applying text edits that do not overlap and start at distinct positions replaces each
/// edit's range, as its positions name it in the content before any edit, with its text: no
/// edit sees another's shift.
pub proof fn law_edits_replace_at_original_offsets(content: Seq<char>, edits: Seq<TextEdit>)
    requires
        apart_edits(encode_utf8(content), edits),
    ensures
        text_edits_result(content, edits) == replace_at_offsets(
            encode_utf8(content),
            sort_descending(edits),
        ),
{
    lemma_sorted_apart(encode_utf8(content), edits);
    law_apart_edits_replace_at_original_offsets(encode_utf8(content), sort_descending(edits));
}

proof fn lemma_strictly_descending_unique(s1: Seq<TextEdit>, s2: Seq<TextEdit>)
    requires
        strictly_descending(s1),
        strictly_descending(s2),
        s1.to_multiset() == s2.to_multiset(),
    ensures
        s1 == s2,
    decreases s1.len(),
{
    broadcast use vstd::seq_lib::group_to_multiset_ensures;

    assert(s1.len() == s2.len()) by {
        s1.to_multiset_ensures();
        s2.to_multiset_ensures();
    }
    if s1.len() > 0 {
        assert(s1.contains(s1[0]));
        assert(s2.to_multiset().count(s1[0]) > 0);
        let k = lemma_index_of_member(s2, s1[0]);
        assert(s2.contains(s2[0]));
        assert(s1.to_multiset().count(s2[0]) > 0);
        let m = lemma_index_of_member(s1, s2[0]);
        if k > 0 {
            assert(starts_before(s2[k], s2[0]));
            if m > 0 {
                assert(starts_before(s1[m], s1[0]));
            }
            assert(false);
        }
        assert(s1[0] == s2[0]);
        let t1 = s1.drop_first();
        let t2 = s2.drop_first();
        assert(s1.remove(0) =~= t1);
        assert(s2.remove(0) =~= t2);
        assert(t1.to_multiset() =~= t2.to_multiset());
        assert(strictly_descending(t1)) by {
            assert forall|i: int, j: int| 0 <= i < j < t1.len() implies starts_before(#[trigger] t1[j], #[trigger] t1[i]) by {
                assert(t1[i] == s1[i + 1] && t1[j] == s1[j + 1]);
            }
        }
        assert(strictly_descending(t2)) by {
            assert forall|i: int, j: int| 0 <= i < j < t2.len() implies starts_before(#[trigger] t2[j], #[trigger] t2[i]) by {
                assert(t2[i] == s2[i + 1] && t2[j] == s2[j + 1]);
            }
        }
        lemma_strictly_descending_unique(t1, t2);
        assert(s1 =~= seq![s1[0]] + t1);
        assert(s2 =~= seq![s2[0]] + t2);
    }
}

/// The order in which such edits are given does not matter: two lists holding the same edits
/// give the same result.
pub proof fn law_edit_order_does_not_matter(content: Seq<char>, e1: Seq<TextEdit>, e2: Seq<TextEdit>)
    requires
        apart_edits(encode_utf8(content), e1),
        apart_edits(encode_utf8(content), e2),
        e1.to_multiset() == e2.to_multiset(),
    ensures
        text_edits_result(content, e1) == text_edits_result(content, e2),
        text_edits_apply(content, e1) == text_edits_apply(content, e2),
{
    lemma_sorted_apart(encode_utf8(content), e1);
    lemma_sorted_apart(encode_utf8(content), e2);
    lemma_strictly_descending_unique(sort_descending(e1), sort_descending(e2));
}

/// Every byte is an ASCII byte.
pub open spec fn ascii_bytes(b: Seq<u8>) -> bool {
    forall|j: int| 0 <= j < b.len() ==> #[trigger] b[j] <= 0x7fu8
}

proof fn lemma_ascii_bytes_boundaries(b: Seq<u8>)
    requires
        ascii_bytes(b),
    ensures
        valid_utf8(b),
        forall|i: int| 0 <= i <= b.len() ==> #[trigger] is_char_boundary(b, i),
    decreases b.len(),
{
    if b.len() > 0 {
        let x = b[0];
        assert(x <= 0x7fu8);
        assert((x & 0x7fu8) <= 0x7fu8) by (bit_vector);
        assert(is_leading_byte_width_1(x));
        assert(length_of_first_scalar(b) == 1);
        let rest = pop_first_scalar(b);
        assert(rest =~= b.subrange(1, b.len() as int));
        assert(ascii_bytes(rest)) by {
            assert forall|j: int| 0 <= j < rest.len() implies #[trigger] rest[j] <= 0x7fu8 by {
                assert(rest[j] == b[j + 1]);
            }
        }
        lemma_ascii_bytes_boundaries(rest);
        assert(valid_utf8(b));
        assert forall|i: int| 0 <= i <= b.len() implies #[trigger] is_char_boundary(b, i) by {
            if i > 0 {
                assert(is_char_boundary(rest, i - 1));
            }
        }
    }
}

proof fn lemma_ascii_encoding(chars: Seq<char>)
    requires
        is_ascii_chars(chars),
    ensures
        ascii_bytes(encode_utf8(chars)),
    decreases chars.len(),
{
    if chars.len() > 0 {
        let c = chars[0] as u32;
        assert(chars[0] <= '\x7f') by {
            assert(is_ascii_chars(chars));
        }
        assert(has_width_1_encoding(c));
        assert(((c & 0x7Fu32) as u8) <= 0x7fu8) by (bit_vector);
        assert(is_ascii_chars(chars.drop_first())) by {
            assert forall|j: int| 0 <= j < chars.drop_first().len() implies chars.drop_first()[j] == chars[j + 1] by {}
        }
        lemma_ascii_encoding(chars.drop_first());
        let e = encode_utf8(chars);
        assert(e == encode_scalar(c) + encode_utf8(chars.drop_first()));
        assert forall|j: int| 0 <= j < e.len() implies #[trigger] e[j] <= 0x7fu8 by {
            if j > 0 {
                assert(e[j] == encode_utf8(chars.drop_first())[j - 1]);
            }
        }
    }
}

/// Every edit's new text is ASCII.
pub open spec fn ascii_texts(es: Seq<TextEdit>) -> bool {
    forall|i: int| 0 <= i < es.len() ==> is_ascii_chars(#[trigger] es[i].new_text@)
}

proof fn lemma_rest_apart(b: Seq<u8>, es: Seq<TextEdit>)
    requires
        apart_descending(b, es),
        es.len() > 0,
    ensures
        apart_descending(b, es.drop_last()),
        forall|i: int| 0 <= i < es.len() - 1 ==> end_offset(b, es.last()) <= start_offset(b, #[trigger] es.drop_last()[i]),
        position_inside(b, es.last().range.start),
        position_inside(b, es.last().range.end),
        0 <= start_offset(b, es.last()) <= end_offset(b, es.last()) <= b.len(),
{
    let x = es.last();
    let rest = es.drop_last();
    assert(es[es.len() - 1] == x);
    lemma_offset_in_lines_bounds(b, 0, x.range.end.line as nat, x.range.end.character as nat);
    lemma_offset_in_lines_bounds(b, 0, x.range.start.line as nat, x.range.start.character as nat);
    assert forall|i: int| 0 <= i < rest.len() implies position_inside(b, (#[trigger] rest[i]).range.start)
        && position_inside(b, rest[i].range.end) && start_offset(b, rest[i]) <= end_offset(b, rest[i]) by {
        assert(rest[i] == es[i]);
    }
    assert forall|i: int, j: int| 0 <= i < j < rest.len() implies end_offset(b, #[trigger] rest[j])
        <= start_offset(b, #[trigger] rest[i]) by {
        assert(rest[i] == es[i] && rest[j] == es[j]);
    }
    assert forall|i: int| 0 <= i < es.len() - 1 implies end_offset(b, x) <= start_offset(b, #[trigger] rest[i]) by {
        assert(rest[i] == es[i]);
    }
}

proof fn lemma_replace_ascii_applies(b: Seq<u8>, es: Seq<TextEdit>)
    requires
        apart_descending(b, es),
        ascii_bytes(b),
        ascii_texts(es),
    ensures
        ascii_bytes(replace_at_offsets(b, es)),
        edits_apply(b, es),
    decreases es.len(),
{
    if es.len() > 0 {
        let x = es.last();
        let rest = es.drop_last();
        lemma_rest_apart(b, es);
        assert(ascii_texts(rest)) by {
            assert forall|i: int| 0 <= i < rest.len() implies is_ascii_chars(#[trigger] rest[i].new_text@) by {
                assert(rest[i] == es[i]);
            }
        }
        assert(is_ascii_chars(x.new_text@)) by {
            assert(es[es.len() - 1] == x);
        }
        lemma_replace_ascii_applies(b, rest);
        let k = end_offset(b, x);
        lemma_replace_keeps_prefix(b, rest, k);
        let r = replace_at_offsets(b, rest);
        law_apart_edits_replace_at_original_offsets(b, rest);
        lemma_offset_stable(b, r, k as nat, 0, x.range.start.line as nat, x.range.start.character as nat);
        lemma_offset_stable(b, r, k as nat, 0, x.range.end.line as nat, x.range.end.character as nat);
        lemma_ascii_bytes_boundaries(r);
        let t = encode_utf8(x.new_text@);
        lemma_ascii_encoding(x.new_text@);
        let out = splice_bytes(r, start_offset(b, x), k, t);
        assert forall|j: int| 0 <= j < out.len() implies #[trigger] out[j] <= 0x7fu8 by {
            let s0 = start_offset(b, x);
            if j < s0 {
                assert(out[j] == r[j]);
            } else if j < s0 + t.len() {
                assert(out[j] == t[j - s0]);
            } else {
                assert(out[j] == r[j - s0 - t.len() + k]);
            }
        }
    }
}

/// Text edits over ASCII text with ASCII new texts that do not overlap and start at distinct
/// positions, all inside the text, always apply: no replaced range runs backwards or splits a
/// character.
pub proof fn law_apart_ascii_edits_apply(content: Seq<char>, edits: Seq<TextEdit>)
    requires
        is_ascii_chars(content),
        ascii_texts(edits),
        apart_edits(encode_utf8(content), edits),
    ensures
        text_edits_apply(content, edits),
{
    broadcast use vstd::seq_lib::group_to_multiset_ensures;

    let b = encode_utf8(content);
    lemma_sorted_apart(b, edits);
    lemma_ascii_encoding(content);
    let s = sort_descending(edits);
    assert(ascii_texts(s)) by {
        assert forall|i: int| 0 <= i < s.len() implies is_ascii_chars(#[trigger] s[i].new_text@) by {
            assert(s.contains(s[i]));
            assert(s.to_multiset().count(s[i]) > 0);
            assert(edits.contains(s[i]));
            let p = lemma_index_of_member(edits, s[i]);
        }
    }
    lemma_replace_ascii_applies(b, s);
}

} // verus!
