use rediff::highlight::{Paint, Span};
use rediff::treesitter::{capture_names, ts_highlight};

fn texts(spans: &[Span]) -> Vec<(&str, Paint)> {
    spans.iter().map(|s| (s.text.as_str(), s.paint)).collect()
}

#[test]
fn ts_highlight_colors_rust_keywords() {
    let lines = ts_highlight("rust", "fn main() {}\nlet x = 1;").expect("rust is bundled");
    assert_eq!(lines.len(), 2);
    let names = capture_names();
    let kw = names.iter().position(|n| n == "keyword").unwrap() as u16;
    let first = texts(&lines[0]);
    assert_eq!(first[0], ("fn", Paint::Capture(kw)));
    let joined: String = lines[0].iter().map(|s| s.text.as_str()).collect();
    assert_eq!(joined, "fn main() {}");
    assert!(lines.iter().flatten().all(|s| !matches!(s.paint, Paint::Fixed(_))));
}

#[test]
fn unknown_language_has_no_tree_sitter_highlight() {
    assert!(ts_highlight("python", "x = 1").is_none());
    assert!(ts_highlight("", "x").is_none());
}

#[test]
fn every_bundled_language_builds_and_keeps_the_text() {
    for lang in ["rust", "tsx", "typescript", "javascript", "jsx"] {
        let text = "const a = 1;\nlet b = \"s\";";
        let lines = ts_highlight(lang, text).unwrap_or_else(|| panic!("{lang} is bundled"));
        let back: Vec<String> = lines.iter().map(|l| l.iter().map(|s| s.text.as_str()).collect()).collect();
        assert_eq!(back, vec!["const a = 1;".to_string(), "let b = \"s\";".to_string()], "{lang}");
    }
}
