use unicode_width::UnicodeWidthStr;
use rediff::tui::blame::{blank_gutter, gutter_token, relative_age, DAY, GUTTER_W, HOUR, MONTH, YEAR};

fn tenths_ago(tenths: i64, unit: i64) -> i64 {
    (2 * tenths + 1) * unit / 20
}

#[test]
fn age_hours_and_days_are_integers() {
    assert_eq!(relative_age(2 * HOUR, 0), "2h");
    assert_eq!(relative_age(23 * HOUR, 0), "23h");
    assert_eq!(relative_age(DAY - 1, 0), "23h");
    assert_eq!(relative_age(DAY, 0), "1d");
    assert_eq!(relative_age(29 * DAY, 0), "29d");
}

#[test]
fn age_months_single_digit_decimal_then_integer() {
    assert_eq!(relative_age(tenths_ago(25, MONTH), 0), "2.5m");
    assert_eq!(relative_age(tenths_ago(99, MONTH), 0), "9.9m");
    assert_eq!(relative_age(10 * MONTH, 0), "10m");
    assert_eq!(relative_age(11 * MONTH, 0), "11m");
}

#[test]
fn age_twelve_months_rolls_to_one_year() {
    assert_eq!(relative_age(12 * MONTH, 0), "1.0y");
    assert_eq!(relative_age(YEAR, 0), "1.0y");
    assert_eq!(relative_age(YEAR - 1, 0), "11m");
}

#[test]
fn age_years_single_digit_decimal_then_integer() {
    assert_eq!(relative_age(tenths_ago(13, YEAR), 0), "1.3y");
    assert_eq!(relative_age(tenths_ago(99, YEAR), 0), "9.9y");
    assert_eq!(relative_age(10 * YEAR, 0), "10y");
    assert_eq!(relative_age(45 * YEAR, 0), "45y");
}

#[test]
fn age_future_clamps_to_zero() {
    assert_eq!(relative_age(0, 100), "0h");
}

#[test]
fn age_survives_a_corrupt_minimum_timestamp() {
    let age = relative_age(0, i64::MIN);
    assert!(age.ends_with('y'), "extreme ages land in years: {age}");
    assert!(
        age.trim_end_matches('y').parse::<i64>().unwrap() > 0,
        "positive integer years: {age}"
    );
}

#[test]
fn gutter_token_right_aligns_age_to_fixed_width() {
    let g = gutter_token("alice", "14d", GUTTER_W);
    assert_eq!(g.chars().count(), GUTTER_W);
    assert!(g.starts_with("alice"));
    assert!(g.ends_with("14d"));
}

#[test]
fn gutter_token_truncates_a_long_name_to_keep_a_gap() {
    let g = gutter_token("sebastian", "2h", GUTTER_W);
    assert_eq!(g.chars().count(), GUTTER_W);
    assert!(g.ends_with("2h"));
    assert!(g.starts_with("sebastian"));
    let g2 = gutter_token("sebastian", "1.3y", GUTTER_W);
    assert_eq!(g2.chars().count(), GUTTER_W);
    assert!(g2.starts_with("sebasti"));
    assert!(g2.ends_with("1.3y"));
}

#[test]
fn gutter_token_caps_a_runaway_age_to_the_column_budget() {
    let worst = relative_age(0, i64::MIN);
    assert!(worst.chars().count() <= GUTTER_W, "worst real age: {worst}");
    let g = gutter_token("bob", &worst, GUTTER_W);
    assert_eq!(g.chars().count(), GUTTER_W, "exactly the budget: {g:?}");
    let g = gutter_token("bob", "1234567890123456y", GUTTER_W);
    assert_eq!(g.chars().count(), GUTTER_W, "oversized age capped: {g:?}");
}

#[test]
fn gutter_token_measures_display_cells_not_chars() {
    let g = gutter_token("田中太郎", "2h", GUTTER_W);
    assert_eq!(g.width(), GUTTER_W, "display width, not char count: {g:?}");
    assert!(g.ends_with("2h"));
    let g2 = gutter_token("田中太郎五", "2h", GUTTER_W);
    assert_eq!(g2.width(), GUTTER_W);
    assert!(g2.starts_with("田中太郎") && !g2.contains('五'));
}

#[test]
fn blank_gutter_is_all_spaces() {
    assert_eq!(blank_gutter(GUTTER_W), " ".repeat(GUTTER_W));
}

#[test]
fn age_exact_unit_values() {
    assert_eq!(relative_age(0, 0), "0h");
    assert_eq!(relative_age(HOUR - 1, 0), "0h");
    assert_eq!(relative_age(30 * DAY, 0), "30d");
    assert_eq!(relative_age(MONTH, 0), "1.0m");
    assert_eq!(relative_age(100, 100 - 3 * HOUR), "3h");
}

#[test]
fn gutter_token_with_an_empty_name_is_padding_then_age() {
    let g = gutter_token("", "5d", GUTTER_W);
    assert_eq!(g, format!("{}5d", " ".repeat(GUTTER_W - 2)));
}

#[test]
fn blank_gutter_of_zero_is_empty() {
    assert_eq!(blank_gutter(0), "");
}
