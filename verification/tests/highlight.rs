use rediff::highlight::{
    capture_scope, lines_from_events, plain, scope_for_capture, syntect_fallback, syntect_spans, ts_key, FileHighlight,
    HlEvent, Paint, Span,
};

fn texts(spans: &[Span]) -> Vec<(&str, Paint)> {
    spans.iter().map(|s| (s.text.as_str(), s.paint)).collect()
}

#[test]
fn plain_is_one_default_span_per_line() {
    let lines = plain("fn main() {}\r\n\nlet x = 1;");
    assert_eq!(lines.len(), 3);
    assert_eq!(texts(&lines[0]), vec![("fn main() {}", Paint::Default)]);
    assert!(lines[1].is_empty());
    assert_eq!(texts(&lines[2]), vec![("let x = 1;", Paint::Default)]);
    let trailing = plain("a\n");
    assert_eq!(trailing.len(), 2, "a trailing newline leaves an empty last line");
    assert!(trailing[1].is_empty());
    assert_eq!(plain("").len(), 1);
}

#[test]
fn events_lay_out_captures_and_line_breaks() {
    let events = vec![
        HlEvent::Start(9),
        HlEvent::Source("fn".into()),
        HlEvent::End,
        HlEvent::Source(" main\nx".into()),
        HlEvent::Start(1),
        HlEvent::Start(3),
        HlEvent::Source("y\n".into()),
        HlEvent::End,
        HlEvent::Source("z".into()),
    ];
    let lines = lines_from_events("fn main\nxy\nz", &events);
    assert_eq!(lines.len(), 3);
    assert_eq!(texts(&lines[0]), vec![("fn", Paint::Capture(9)), (" main", Paint::Default)]);
    assert_eq!(texts(&lines[1]), vec![("x", Paint::Default), ("y", Paint::Capture(3))]);
    assert_eq!(texts(&lines[2]), vec![("z", Paint::Capture(1))]);
}

#[test]
fn a_failed_highlight_falls_back_to_plain() {
    let events = vec![HlEvent::Source("a".into()), HlEvent::Failed];
    let lines = lines_from_events("a\r\nb", &events);
    assert_eq!(lines.len(), 2);
    assert_eq!(texts(&lines[0]), vec![("a", Paint::Default)]);
    assert_eq!(texts(&lines[1]), vec![("b", Paint::Default)]);
}

#[test]
fn an_end_without_a_capture_changes_nothing() {
    let lines = lines_from_events("q", &[HlEvent::End, HlEvent::Source("q".into())]);
    assert_eq!(texts(&lines[0]), vec![("q", Paint::Default)]);
}

#[test]
fn syntect_spans_trim_line_ends_and_drop_empties() {
    let spans = syntect_spans(&[((1, 2, 3), "let".to_string()), ((4, 5, 6), "\r\n".to_string()), ((7, 8, 9), " x\n".to_string())]);
    assert_eq!(texts(&spans), vec![("let", Paint::Fixed((1, 2, 3))), (" x", Paint::Fixed((7, 8, 9)))]);
    let fb = syntect_fallback("oops\r\n", (9, 9, 9));
    assert_eq!(texts(&fb), vec![("oops", Paint::Fixed((9, 9, 9)))]);
    let empty = syntect_fallback("\n", (0, 0, 0));
    assert_eq!(texts(&empty), vec![("", Paint::Fixed((0, 0, 0)))]);
}

#[test]
fn tree_sitter_keys_and_capture_scopes() {
    assert_eq!(ts_key("rust"), Some("rust"));
    assert_eq!(ts_key("jsx"), Some("javascript"));
    assert_eq!(ts_key("python"), None);
    assert_eq!(capture_scope("function"), "entity.name.function");
    assert_eq!(capture_scope("label"), "variable.other.member");
    assert_eq!(capture_scope("punctuation"), "");
    assert_eq!(scope_for_capture("function.method"), "entity.name.function");
    assert_eq!(scope_for_capture("escape"), "constant.character.escape");
    assert_eq!(scope_for_capture("type.builtin"), "entity.name.type");
    assert_eq!(scope_for_capture("operator"), "");
}

#[test]
fn file_highlight_lines_are_one_based() {
    let mut fh = FileHighlight::default();
    fh.new = plain("a\nb");
    assert!(fh.line(true, 0).is_none());
    assert_eq!(fh.line(true, 2).map(|s| s[0].text.clone()), Some("b".to_string()));
    assert!(fh.line(true, 3).is_none());
    assert!(fh.line(false, 1).is_none(), "the old side is empty");
}
