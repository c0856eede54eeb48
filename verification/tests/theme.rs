use rediff::theme::{themes_by_brightness, ThemeName};

fn names() -> Vec<String> {
    ["TwoDark", "GitHub", "Dracula", "Nord", "Solarized (light)"]
        .iter()
        .map(|s| s.to_string())
        .collect()
}

#[test]
fn parses_legacy_and_named_and_unknown() {
    let n = names();
    assert_eq!(ThemeName::parse_among("dark", &n), ThemeName::dark());
    assert_eq!(ThemeName::parse_among("light", &n), ThemeName::light());
    assert_eq!(ThemeName::parse_among("Dracula", &n), ThemeName(2));
    assert_eq!(ThemeName::parse_among("  nord ", &n), ThemeName(3), "trimmed and case-insensitive");
    assert_eq!(ThemeName::parse_among("SOLARIZED (LIGHT)", &n), ThemeName(4));
    assert_eq!(ThemeName::parse_among("nonsense", &n), ThemeName::default());
    assert_eq!(ThemeName::parse_among("Dark", &[]), ThemeName::dark());
}

#[test]
fn brightness_tabs_partition_the_registry() {
    let flags = [true, false, true, true, false];
    let dark = themes_by_brightness(&flags, true);
    let light = themes_by_brightness(&flags, false);
    assert_eq!(dark, vec![ThemeName(0), ThemeName(2), ThemeName(3)]);
    assert_eq!(light, vec![ThemeName(1), ThemeName(4)]);
    assert_eq!(dark.len() + light.len(), flags.len());
    assert_eq!(ThemeName(3).position_in_tab(&dark), 2);
    assert_eq!(ThemeName(4).position_in_tab(&light), 1);
    assert_eq!(ThemeName(4).position_in_tab(&dark), 0, "absent → 0");
}

#[test]
fn names_are_matched_after_trimming_unicode_white_space() {
    let names: Vec<String> = vec!["TwoDark".to_string(), "Nord".to_string()];
    assert_eq!(ThemeName::parse_among("\u{3000}\t nord \u{a0}\n", &names).0, 1);
    assert_eq!(ThemeName::parse_among("  LIGHT  ", &names).0, 1);
    assert_eq!(ThemeName::parse_among("\u{200b}nord", &names).0, 0);
}
