use rediff::tui::fuzzy::score;

#[test]
fn subsequence_matches_and_ranks() {
    assert!(score("auth", "src/auth.rs").is_some());
    assert!(score("xyz", "src/auth.rs").is_none());
    let contiguous = score("auth", "auth.rs").unwrap();
    let scattered = score("auth", "a_u_t_h.rs").unwrap();
    assert!(contiguous > scattered);
}

#[test]
fn empty_query_matches_everything() {
    assert_eq!(score("", "anything"), Some(0));
}

#[test]
fn score_exact_values() {
    // "ab" in "ab": 1 + 4 (first char at 0) then 1 + 6 (adjacent) = 12, minus 2/12 = 0.
    assert_eq!(score("ab", "ab"), Some(12));
    // "b" in "ab": 1, no bonus.
    assert_eq!(score("b", "ab"), Some(1));
    // 24 chars of text subtract 2.
    assert_eq!(score("a", "a23456789012345678901234"), Some(3));
}

#[test]
fn score_is_case_insensitive() {
    assert_eq!(score("AUTH", "src/Auth.rs"), score("auth", "src/auth.rs"));
    assert!(score("Q", "q").is_some());
}

#[test]
fn scattered_match_scores_each_char_and_the_start_bonus() {
    // a@0: 1 + 4, a@2: 1, a@4: 1; penalty 6 / 12 == 0
    assert_eq!(score("aaa", "ababab"), Some(7));
}
