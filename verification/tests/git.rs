use rediff::git::commits::ymd;
use rediff::git::blame::{spread_blame, BlameSpan};
use rediff::git::commits::{admit_commit, range_ids, Admit, COMMIT_CAP};

#[test]
fn admit_skips_excluded_and_untouched_and_stops_at_the_cap() {
    assert_eq!(admit_commit(0, COMMIT_CAP, true, true), Admit::Skip);
    assert_eq!(admit_commit(0, COMMIT_CAP, false, false), Admit::Skip);
    assert_eq!(admit_commit(0, COMMIT_CAP, false, true), Admit::Take);
    assert_eq!(admit_commit(COMMIT_CAP - 1, COMMIT_CAP, false, true), Admit::TakeAndStop);
    assert_eq!(admit_commit(0, 1, false, true), Admit::TakeAndStop, "a cap of 1 stops after the first");
    assert_eq!(admit_commit(0, 0, false, true), Admit::TakeAndStop);
}

#[test]
fn range_ids_keep_target_history_minus_base_history() {
    let base: Vec<String> = vec!["b1".into(), "b0".into()];
    let target: Vec<String> = vec!["t2".into(), "t1".into(), "b1".into(), "b0".into()];
    assert_eq!(range_ids(&base, &target), vec!["t2".to_string(), "t1".to_string()]);
    assert!(range_ids(&target, &base).is_empty());
    assert_eq!(range_ids(&[], &target).len(), 4);
}

#[test]
fn spread_blame_attributes_each_line_to_its_last_covering_span() {
    let spans = [
        BlameSpan { start: 0, len: 2, commit: 7 },
        BlameSpan { start: 4, len: 1, commit: 8 },
        BlameSpan { start: 1, len: 1, commit: 9 },
    ];
    assert_eq!(spread_blame(&spans), vec![Some(7), Some(9), None, None, Some(8)]);
    assert!(spread_blame(&[]).is_empty());
}

#[test]
fn ymd_formats_civil_dates() {
    assert_eq!(ymd(0), "1970-01-01");
    assert_eq!(ymd(86_399), "1970-01-01");
    assert_eq!(ymd(-1), "1969-12-31");
    assert_eq!(ymd(951_782_400), "2000-02-29", "leap day of a century leap year");
    assert_eq!(ymd(1_700_000_000), "2023-11-14");
    assert_eq!(ymd(-62_135_596_800), "0001-01-01");
    assert_eq!(ymd(-62_167_219_200), "0000-01-01");
    assert_eq!(ymd(-62_198_755_200), "-001-01-01");
}

#[test]
fn ymd_walks_the_calendar_one_valid_day_at_a_time() {
    let month_len = |y: i64, m: u32| match m {
        2 if (y % 4 == 0 && y % 100 != 0) || y % 400 == 0 => 29,
        2 => 28,
        4 | 6 | 9 | 11 => 30,
        _ => 31,
    };
    let parse = |s: &str| {
        let parts: Vec<&str> = s.rsplitn(3, '-').collect();
        (parts[2].parse::<i64>().unwrap(), parts[1].parse::<u32>().unwrap(), parts[0].parse::<u32>().unwrap())
    };
    let mut prev = parse(&ymd(-3 * 86_400 * 366));
    for day in -3 * 366 + 1..3 * 366 {
        let cur = parse(&ymd(day * 86_400 + 12));
        let (y, m, d) = cur;
        assert!((1..=12).contains(&m) && d >= 1 && d <= month_len(y, m), "{cur:?}");
        let next_of_prev = if prev.2 < month_len(prev.0, prev.1) {
            (prev.0, prev.1, prev.2 + 1)
        } else if prev.1 < 12 {
            (prev.0, prev.1 + 1, 1)
        } else {
            (prev.0 + 1, 1, 1)
        };
        assert_eq!(cur, next_of_prev);
        prev = cur;
    }
}
