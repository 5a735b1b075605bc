use fcp_rust::lsp::types::{Position, Range, TextEdit};
use fcp_rust::lsp::workspace_edit::{apply_text_edits, position_to_offset, try_apply_text_edits};


fn pos(line: u32, character: u32) -> Position {
    Position { line, character }
}

fn range(sl: u32, sc: u32, el: u32, ec: u32) -> Range {
    Range {
        start: pos(sl, sc),
        end: pos(el, ec),
    }
}

#[test]
fn test_apply_text_edits_single() {
    let content = "fn config() {}";
    let edits = vec![TextEdit {
        range: range(0, 3, 0, 9),
        new_text: "settings".to_string(),
    }];
    let result = apply_text_edits(content, &edits);
    assert_eq!(result, "fn settings() {}");
}

#[test]
fn test_apply_text_edits_multiple_non_overlapping() {
    let content = "let x = Config::new();\nlet y = Config::default();";
    let edits = vec![
        TextEdit {
            range: range(0, 8, 0, 14),
            new_text: "Settings".to_string(),
        },
        TextEdit {
            range: range(1, 8, 1, 14),
            new_text: "Settings".to_string(),
        },
    ];
    let result = apply_text_edits(content, &edits);
    assert_eq!(
        result,
        "let x = Settings::new();\nlet y = Settings::default();"
    );
}

#[test]
fn test_apply_text_edits_empty() {
    let content = "hello world";
    let result = apply_text_edits(content, &[]);
    assert_eq!(result, "hello world");
}

#[test]
fn test_apply_text_edits_insert() {
    let content = "fn main() {}";
    let edits = vec![TextEdit {
        range: range(0, 0, 0, 0),
        new_text: "pub ".to_string(),
    }];
    let result = apply_text_edits(content, &edits);
    assert_eq!(result, "pub fn main() {}");
}

#[test]
fn test_apply_text_edits_multiline() {
    let content = "line one\nline two\nline three";
    let edits = vec![TextEdit {
        range: range(1, 5, 1, 8),
        new_text: "2".to_string(),
    }];
    let result = apply_text_edits(content, &edits);
    assert_eq!(result, "line one\nline 2\nline three");
}

#[test]
fn test_position_to_offset() {
    let content = "hello\nworld\nfoo";
    assert_eq!(position_to_offset(content, &pos(0, 0)), Some(0));
    assert_eq!(position_to_offset(content, &pos(0, 5)), Some(5));
    assert_eq!(position_to_offset(content, &pos(1, 0)), Some(6));
    assert_eq!(position_to_offset(content, &pos(1, 5)), Some(11));
    assert_eq!(position_to_offset(content, &pos(2, 0)), Some(12));
    assert_eq!(position_to_offset(content, &pos(2, 3)), Some(15));
}

#[test]
fn test_edits_applied_last_first() {
    let content = "aaa bbb ccc";
    let forward = vec![
        TextEdit { range: range(0, 0, 0, 3), new_text: "x".to_string() },
        TextEdit { range: range(0, 8, 0, 11), new_text: "zzzzz".to_string() },
    ];
    let backward = vec![forward[1].clone(), forward[0].clone()];
    assert_eq!(apply_text_edits(content, &forward), "x bbb zzzzz");
    assert_eq!(apply_text_edits(content, &backward), "x bbb zzzzz");
}

#[test]
fn test_try_apply_text_edits_refuses_bad_ranges() {
    let backwards = vec![TextEdit { range: range(0, 5, 0, 2), new_text: "x".to_string() }];
    assert!(try_apply_text_edits("hello world", &backwards).is_none());
    let splits_char = vec![TextEdit { range: range(0, 1, 0, 2), new_text: "x".to_string() }];
    assert!(try_apply_text_edits("é", &splits_char).is_none());
    assert_eq!(try_apply_text_edits("hello", &[]).unwrap(), "hello");
}
