use rediff::diff::{compute_hunks, compute_hunks_with_context, hunks_from_raw, whole_file_hunks};
use rediff::model::LineKind;

#[test]
fn intra_line_emphasis_marks_changed_word() {
    let (hunks, _, _) = compute_hunks("let x = foo();\n", "let x = bar();\n");
    let h = &hunks[0];
    let removed = h
        .lines
        .iter()
        .find(|l| l.kind == LineKind::Removed)
        .unwrap();
    let added = h.lines.iter().find(|l| l.kind == LineKind::Added).unwrap();
    // "foo" / "bar" occupy chars 8..11 on both sides
    assert_eq!(removed.emphasis, Some((8, 11)));
    assert_eq!(added.emphasis, Some((8, 11)));
}

#[test]
fn single_line_change() {
    let (hunks, adds, dels) = compute_hunks("a\nb\nc\n", "a\nB\nc\n");
    assert_eq!((adds, dels), (1, 1));
    assert_eq!(hunks.len(), 1);
    let h = &hunks[0];
    assert_eq!(h.header(), "@@ -1,3 +1,3 @@");
    let kinds: Vec<_> = h.lines.iter().map(|l| l.kind).collect();
    assert_eq!(
        kinds,
        vec![
            LineKind::Context,
            LineKind::Removed,
            LineKind::Added,
            LineKind::Context
        ]
    );
}

#[test]
fn new_file_header_uses_zero_old_start() {
    let (hunks, adds, dels) = compute_hunks("", "x\ny\n");
    assert_eq!((adds, dels), (2, 0));
    assert_eq!(hunks[0].header(), "@@ -0,0 +1,2 @@");
}

#[test]
fn distant_changes_split_into_two_hunks() {
    let old = "1\n2\n3\n4\n5\n6\n7\n8\n9\n10\n";
    let new = "X\n2\n3\n4\n5\n6\n7\n8\n9\nY\n";
    let (hunks, _, _) = compute_hunks(old, new);
    assert_eq!(
        hunks.len(),
        2,
        "changes 9 lines apart should not merge with context 3"
    );
}

#[test]
fn identical_input_has_no_hunks() {
    let (hunks, adds, dels) = compute_hunks("same\n", "same\n");
    assert!(hunks.is_empty());
    assert_eq!((adds, dels), (0, 0));
}

#[test]
fn close_changes_merge_into_one_hunk_with_shared_context() {
    // Changes 4 unchanged lines apart merge under context 3 (gap <= 6).
    let old = "1\n2\n3\n4\n5\n6\n7\n8\n9\n10\n";
    let new = "1\nX\n3\n4\n5\n6\nY\n8\n9\n10\n";
    let (hunks, adds, dels) = compute_hunks(old, new);
    assert_eq!((adds, dels), (2, 2));
    assert_eq!(hunks.len(), 1);
    assert_eq!(hunks[0].header(), "@@ -1,10 +1,10 @@");
}

#[test]
fn context_zero_keeps_only_changed_lines() {
    let (hunks, _, _) = compute_hunks_with_context("a\nb\nc\n", "a\nB\nc\n", 0);
    assert_eq!(hunks.len(), 1);
    assert_eq!(hunks[0].header(), "@@ -2 +2 @@");
    assert_eq!(hunks[0].lines.len(), 2);
}

#[test]
fn hunks_from_raw_builds_lines_and_ranges() {
    let old: Vec<String> = ["a\n", "b\n", "c\n"].iter().map(|s| s.to_string()).collect();
    let new: Vec<String> = ["a\n", "bb\r\n", "c\n"].iter().map(|s| s.to_string()).collect();
    let hunks = hunks_from_raw(&old, &new, &vec![(1, 2, 1, 2)], 1);
    assert_eq!(hunks.len(), 1);
    let h = &hunks[0];
    assert_eq!((h.old_start, h.old_len, h.new_start, h.new_len), (1, 3, 1, 3));
    let texts: Vec<&str> = h.lines.iter().map(|l| l.text.as_str()).collect();
    assert_eq!(texts, ["a", "b", "bb", "c"]);
    assert_eq!(h.lines[1].old_lineno, Some(2));
    assert_eq!(h.lines[2].new_lineno, Some(2));
    assert_eq!(h.lines[3].old_lineno, Some(3));
    assert_eq!(h.lines[3].new_lineno, Some(3));
    // "b" vs "bb": shared prefix "b", nothing left of the old side.
    assert_eq!(h.lines[1].emphasis, None);
    assert_eq!(h.lines[2].emphasis, Some((1, 2)));
}

#[test]
fn whole_file_is_one_context_hunk() {
    let hunks = whole_file_hunks("one\r\ntwo\nthree");
    assert_eq!(hunks.len(), 1);
    let h = &hunks[0];
    assert_eq!((h.old_start, h.old_len, h.new_start, h.new_len), (1, 3, 1, 3));
    let texts: Vec<&str> = h.lines.iter().map(|l| l.text.as_str()).collect();
    assert_eq!(texts, ["one", "two", "three"]);
    assert!(h.lines.iter().all(|l| l.kind == LineKind::Context));
    assert_eq!(h.lines[2].old_lineno, Some(3));
    assert!(whole_file_hunks("").is_empty());
}

#[test]
fn every_hunk_header_counts_its_lines() {
    let old = "a\nb\nc\nd\ne\nf\ng\nh\ni\nj\nk\nl\nm\nn\n";
    let new = "a\nB\nc\nd\ne\nf\ng\nh\ni\nj\nk\nL\nl2\nm\nn\n";
    let (hunks, _, _) = compute_hunks(old, new);
    assert_eq!(hunks.len(), 2);
    for h in &hunks {
        let old_side = h.lines.iter().filter(|l| l.kind != LineKind::Added).count() as u32;
        let new_side = h.lines.iter().filter(|l| l.kind != LineKind::Removed).count() as u32;
        assert_eq!((old_side, new_side), (h.old_len, h.new_len), "{}", h.header());
    }
}

#[test]
fn hunk_lines_are_the_numbered_file_lines_in_order() {
    let old = "a\nb\nc\nd\ne\nf\ng\nh\ni\nj\nk\nl\nm\n";
    let new = "a\nB\nc\nd\ne\nf\ng\nh\ni\nj\nk\nL\nm\nn\n";
    let old_lines: Vec<&str> = old.lines().collect();
    let new_lines: Vec<&str> = new.lines().collect();
    let (hunks, adds, dels) = compute_hunks(old, new);
    assert_eq!(hunks.len(), 2);
    let mut added = 0;
    let mut removed = 0;
    for h in &hunks {
        let mut o = h.old_start;
        let mut n = h.new_start;
        for l in &h.lines {
            match l.kind {
                LineKind::Added => {
                    assert_eq!(l.new_lineno, Some(n));
                    assert_eq!(l.text, new_lines[n as usize - 1]);
                    n += 1;
                    added += 1;
                }
                LineKind::Removed => {
                    assert_eq!(l.old_lineno, Some(o));
                    assert_eq!(l.text, old_lines[o as usize - 1]);
                    o += 1;
                    removed += 1;
                }
                LineKind::Context => {
                    assert_eq!((l.old_lineno, l.new_lineno), (Some(o), Some(n)));
                    assert_eq!(l.text, old_lines[o as usize - 1]);
                    o += 1;
                    n += 1;
                }
            }
        }
        assert_eq!(o, h.old_start + h.old_len);
        assert_eq!(n, h.new_start + h.new_len);
    }
    assert!(hunks[0].old_start + hunks[0].old_len < hunks[1].old_start);
    assert!(hunks[0].new_start + hunks[0].new_len < hunks[1].new_start);
    assert_eq!((adds, dels), (added, removed));
    assert_eq!((adds, dels), (3, 2));
}

#[test]
fn removed_lines_pair_with_the_added_lines_that_follow() {
    let (hunks, _, _) = compute_hunks("let x = 1;\n", "let x = 2;\nlet y = 3;\n");
    let ls = &hunks[0].lines;
    let kinds: Vec<_> = ls.iter().map(|l| l.kind).collect();
    assert_eq!(kinds, vec![LineKind::Removed, LineKind::Added, LineKind::Added]);
    assert_eq!(ls[0].emphasis, Some((8, 9)));
    assert_eq!(ls[1].emphasis, Some((8, 9)));
    assert_eq!(ls[2].emphasis, None);
}

#[test]
fn identical_texts_have_no_hunks_and_no_counts() {
    let (hunks, adds, dels) = compute_hunks("x\ny\n", "x\ny\n");
    assert!(hunks.is_empty());
    assert_eq!((adds, dels), (0, 0));
}

#[test]
fn diffable_counts_lines_not_chars() {
    assert!(rediff::diff::diffable("a\nb\n"));
    assert!(rediff::diff::diffable(""));
}
