use rediff::model::{parent_dir, DiffFile, FileStatus, Hunk, Line, LineKind, Stats};

#[test]
fn hunk_header_omits_a_length_of_one() {
    let h = Hunk { old_start: 3, old_len: 1, new_start: 3, new_len: 2, lines: vec![] };
    assert_eq!(h.header(), "@@ -3 +3,2 @@");
    let h = Hunk { old_start: 0, old_len: 0, new_start: 1, new_len: 2, lines: vec![] };
    assert_eq!(h.header(), "@@ -0,0 +1,2 @@");
}

#[test]
fn line_constructors_take_zero_based_indices() {
    let c = Line::context("x".into(), 4, 5);
    assert_eq!((c.kind, c.old_lineno, c.new_lineno), (LineKind::Context, Some(5), Some(6)));
    let r = Line::removed("y".into(), 7);
    assert_eq!((r.kind, r.old_lineno, r.new_lineno), (LineKind::Removed, Some(8), None));
    let a = Line::added("z".into(), 9);
    assert_eq!((a.kind, a.old_lineno, a.new_lineno, a.emphasis), (LineKind::Added, None, Some(10), None));
}

#[test]
fn stub_is_undiffed_and_empty() {
    let f = DiffFile::stub("p.rs".into(), Some("q.rs".into()), FileStatus::Renamed, true, None);
    assert!(!f.diffed);
    assert!(f.hunks.is_empty());
    assert_eq!(f.stats, Stats::default());
    assert_eq!(f.previous_path.as_deref(), Some("q.rs"));
    assert!(f.staged);
}

#[test]
fn parent_dir_is_everything_before_the_last_slash() {
    assert_eq!(parent_dir("src/tui/app.rs"), "src/tui");
    assert_eq!(parent_dir("README.md"), "");
    assert_eq!(parent_dir("/x"), "");
}
