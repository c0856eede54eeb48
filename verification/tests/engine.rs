use rediff::engine::{
    highlight_text, scope_color, scope_defined, syntax_table, syntect_highlight, theme_dependent, theme_fg,
    SyntectAssets,
};
use rediff::highlight::Paint;
use rediff::treesitter::capture_names;

const THEME: &str = "TwoDark";

#[test]
fn highlights_rust_keywords() {
    let a = SyntectAssets::load();
    let lines = highlight_text(&a, Some("rust"), THEME, "fn main() {}\n");
    assert!(!lines.is_empty());
    assert!(lines[0].len() > 1, "rust line should be tokenized into spans");
    assert!(lines[0].iter().any(|s| s.text == "fn" && matches!(s.paint, Paint::Capture(_))));
}

#[test]
fn unknown_language_is_plain() {
    let a = SyntectAssets::load();
    let lines = highlight_text(&a, Some("nonsense-lang"), THEME, "hello world\n");
    assert_eq!(lines[0].len(), 1);
    assert_eq!(lines[0][0].paint, Paint::Default);
}

#[test]
fn syntax_table_has_a_slot_per_capture() {
    let a = SyntectAssets::load();
    assert_eq!(syntax_table(&a, THEME).unwrap().len(), capture_names().len());
}

#[test]
fn default_builds_a_working_engine() {
    let a = SyntectAssets::load();
    let lines = highlight_text(&a, Some("rust"), THEME, "let x = 1;\n");
    assert!(!lines.is_empty());
}

#[test]
fn highlight_covers_ts_syntect_and_plain_paths() {
    let a = SyntectAssets::load();
    let ts = highlight_text(&a, Some("rust"), THEME, "fn main() { let s = \"hi\"; }\n");
    assert!(ts[0].iter().any(|s| matches!(s.paint, Paint::Capture(_))));
    let syn = highlight_text(&a, Some("python"), THEME, "def foo():\n    return 1\n");
    assert!(syn.iter().flatten().any(|s| matches!(s.paint, Paint::Fixed(_))));
    let plainish = highlight_text(&a, Some("totally-unknown-xyz"), THEME, "just text\n");
    assert_eq!(plainish[0][0].paint, Paint::Default);
    let none = highlight_text(&a, None, THEME, "just text\n");
    assert_eq!(none[0][0].paint, Paint::Default);
}

#[test]
fn syntect_highlight_directly_bakes_colors() {
    let a = SyntectAssets::load();
    let lines = syntect_highlight(&a, "python", THEME, "import os\n\ndef greet(name):\n    return name\n")
        .expect("python syntax should be bundled by two-face");
    assert!(lines.len() >= 4, "one entry per source line");
    assert!(lines.iter().flatten().all(|s| matches!(s.paint, Paint::Fixed(_))));
    assert!(lines.iter().flatten().any(|s| !s.text.is_empty()));
}

#[test]
fn theme_dependent_distinguishes_paths() {
    let a = SyntectAssets::load();
    assert!(!theme_dependent(&a, None));
    assert!(!theme_dependent(&a, Some("rust")));
    assert!(!theme_dependent(&a, Some("totally-unknown-xyz")));
    assert!(theme_dependent(&a, Some("python")));
}

#[test]
fn scope_color_handles_valid_and_invalid_scopes() {
    let a = SyntectAssets::load();
    let _kw = scope_color(&a, THEME, "keyword");
    let invalid = "a.b.c.d.e.f.g.h.i.j";
    assert_eq!(scope_color(&a, THEME, invalid), theme_fg(&a, THEME));
}

#[test]
fn scope_defined_covers_all_arms() {
    let a = SyntectAssets::load();
    assert!(scope_defined(&a, THEME, "keyword"));
    assert!(!scope_defined(&a, THEME, "this.scope.is.not.themed"));
    assert!(!scope_defined(&a, THEME, "a.b.c.d.e.f.g.h.i.j"));
}

#[test]
fn syntect_lines_match_the_text_lines_and_keep_their_text() {
    let a = SyntectAssets::load();
    let text = "x = 1\ny = \"two\"\n\nz";
    let lines = syntect_highlight(&a, "py", THEME, text).expect("py is a known extension");
    assert_eq!(lines.len(), 4);
    let back: Vec<String> = lines.iter().map(|l| l.iter().map(|s| s.text.as_str()).collect()).collect();
    assert_eq!(back, vec!["x = 1", "y = \"two\"", "", "z"]);
}

#[test]
fn unknown_theme_has_no_colors() {
    let a = SyntectAssets::load();
    assert_eq!(theme_fg(&a, "no such theme"), None);
    assert!(syntax_table(&a, "no such theme").is_none());
    assert!(syntect_highlight(&a, "python", "no such theme", "x = 1\n").is_none());
}

#[test]
fn syntect_highlight_falls_back_on_a_parse_error() {
    // Two-face's syntaxes do not fail on a line, so the fallback a failed line
    // gets is driven directly: one default-foreground span per source line.
    let a = SyntectAssets::load();
    let fg = theme_fg(&a, THEME).expect("bundled theme");
    let lines: Vec<_> = "aaa\nbbb\n"
        .split_inclusive('\n')
        .map(|l| rediff::highlight::syntect_fallback(l, fg))
        .collect();
    assert_eq!(lines.len(), 2, "one fallback entry per source line");
    assert!(
        lines.iter().flatten().all(|s| s.paint == Paint::Fixed(fg)),
        "every span uses the default-foreground fallback"
    );
    assert!(lines.iter().flatten().any(|s| !s.text.is_empty()), "fallback keeps the line text");
}
