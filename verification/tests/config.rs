use rediff::config::{resolve_mode, resolve_theme};
use rediff::config::{mode_from_lowered, parse_mode, themed_document, Config, ConfigError};
use rediff::model::LayoutMode;

#[test]
fn parse_mode_is_case_insensitive_and_auto_is_none() {
    assert_eq!(parse_mode("split"), Some(LayoutMode::Split));
    assert_eq!(parse_mode("STACK"), Some(LayoutMode::Stack));
    assert_eq!(parse_mode("Split"), Some(LayoutMode::Split));
    assert_eq!(parse_mode("auto"), None);
    assert_eq!(parse_mode("nonsense"), None);
    assert_eq!(mode_from_lowered("Split"), None, "the lowered form is taken as is");
}

#[test]
fn default_config_has_no_layout() {
    let cfg = Config::default();
    assert!(cfg.theme.is_none());
    assert_eq!(cfg.layout_mode(), None);
    let cfg = Config { theme: Some("light".into()), mode: Some("split".into()) };
    assert_eq!(cfg.layout_mode(), Some(LayoutMode::Split));
}

#[test]
fn themed_document_preserves_other_keys_and_comments() {
    let out = themed_document(Some("# my prefs\nmode = \"split\"\ntheme = \"dark\"\n"), "Dracula").unwrap();
    assert!(out.contains("# my prefs"), "comment preserved");
    assert!(out.contains("mode = \"split\""), "other key preserved");
    assert!(out.contains("theme = \"Dracula\""), "theme updated");
    assert!(!out.contains("\"dark\""));
}

#[test]
fn themed_document_starts_fresh_without_a_file() {
    let out = themed_document(None, "Nord").unwrap();
    assert!(out.contains("theme = \"Nord\""));
}

#[test]
fn themed_document_refuses_a_malformed_config() {
    let text = "# prefs\nmode = \"split\"\ntheme = \"dark\nbroken";
    assert_eq!(themed_document(Some(text), "Dracula"), Err(ConfigError::Malformed));
}

#[test]
fn flags_win_over_the_config_file() {
    let cfg = Config { theme: Some("Nord".into()), mode: Some("stack".into()) };
    assert_eq!(resolve_mode(Some("SPLIT"), &cfg), Some(LayoutMode::Split));
    assert_eq!(resolve_mode(Some("auto"), &cfg), Some(LayoutMode::Stack), "an unrecognized flag defers to the file");
    assert_eq!(resolve_mode(None, &Config::default()), None);
    assert_eq!(resolve_theme(Some("Dracula"), &cfg).as_deref(), Some("Dracula"));
    assert_eq!(resolve_theme(None, &cfg).as_deref(), Some("Nord"));
    assert_eq!(resolve_theme(None, &Config::default()), None);
}

#[test]
fn themed_document_fresh_text_is_just_the_theme_key() {
    assert_eq!(themed_document(None, "Nord").unwrap(), "theme = \"Nord\"\n");
    let edited = themed_document(Some("mode = \"stack\"\n"), "Zenburn").unwrap();
    assert_eq!(edited, "mode = \"stack\"\ntheme = \"Zenburn\"\n");
}
