use rediff::model::{Changeset, DiffFile, FileStatus, Hunk, LayoutMode, Line, LineKind, Stats};
use rediff::tui::rows::{file_at, Plan, Row};

fn nofold() -> Vec<String> {
    Vec::new()
}

fn line(kind: LineKind, old: Option<u32>, new: Option<u32>, text: &str) -> Line {
    Line {
        kind,
        old_lineno: old,
        new_lineno: new,
        text: text.into(),
        emphasis: None,
    }
}

/// One file with a hunk: 1 context, 2 removed, 1 added.
fn fixture() -> Changeset {
    let hunk = Hunk {
        old_start: 1,
        old_len: 3,
        new_start: 1,
        new_len: 2,
        lines: vec![
            line(LineKind::Context, Some(1), Some(1), "ctx"),
            line(LineKind::Removed, Some(2), None, "a"),
            line(LineKind::Removed, Some(3), None, "b"),
            line(LineKind::Added, None, Some(2), "c"),
        ],
    };
    let f = DiffFile {
        path: "f.rs".into(),
        previous_path: None,
        status: FileStatus::Modified,
        staged: false,
        hunks: vec![hunk],
        stats: Stats {
            additions: 1,
            deletions: 2,
        },
        language: None,
        is_binary: false,
        old_text: None,
        new_text: None,
        diffed: true,
    };
    Changeset {
        source: "t".into(),
        files: vec![f],
    }
}

fn kinds(rows: &[Row]) -> Vec<&'static str> {
    rows.iter()
        .map(|r| match r {
            Row::FileHeader(_) => "fh",
            Row::Collapsed(_) => "col",
            Row::CollapsedDir { .. } => "cdir",
            Row::Pending => "pend",
            Row::Banner(_) => "ban",
            Row::HunkHeader(_) => "hh",
            Row::Line { .. } => "line",
            Row::Pair(..) => "pair",
            Row::Spacer => "sp",
        })
        .collect()
}

#[test]
fn stack_sequence_interleaves_lines() {
    let cs = fixture();
    let p = Plan::build(&cs, &[false], LayoutMode::Stack, &nofold());
    assert_eq!(kinds(&p.rows), ["fh", "line", "line", "line", "line", "sp"]);
    assert_eq!(p.file_starts, vec![0]);
    assert_eq!(p.hunk_starts, vec![1]);
}

#[test]
fn split_sequence_pairs_removed_with_added() {
    let cs = fixture();
    let p = Plan::build(&cs, &[false], LayoutMode::Split, &nofold());
    assert_eq!(kinds(&p.rows), ["fh", "pair", "pair", "pair", "sp"]);
    assert_eq!(p.hunk_starts, vec![1]);
}

#[test]
fn change_starts_are_consistent_per_layout() {
    let cs = fixture();
    let stack = Plan::build(&cs, &[false], LayoutMode::Stack, &nofold());
    let first_change = stack.rows.iter().position(|r| {
        matches!(
            r,
            Row::Line {
                kind: LineKind::Removed,
                ..
            }
        )
    });
    assert_eq!(first_change, Some(2));
    let split = Plan::build(&cs, &[false], LayoutMode::Split, &nofold());
    let first_pair_change = split
        .rows
        .iter()
        .position(|r| matches!(r, Row::Pair(Some(c), _) if c.kind != LineKind::Context));
    assert_eq!(first_pair_change, Some(2));
}

#[test]
fn first_hunk_has_no_gap_marker_but_later_hunks_do() {
    let hunk = |new_start: u32, new_len: u32| Hunk {
        old_start: new_start,
        old_len: new_len,
        new_start,
        new_len,
        lines: (0..new_len)
            .map(|i| line(LineKind::Added, None, Some(new_start + i), "x"))
            .collect(),
    };
    let f = DiffFile {
        path: "f.rs".into(),
        previous_path: None,
        status: FileStatus::Modified,
        staged: false,
        hunks: vec![hunk(10, 3), hunk(120, 1)],
        stats: Stats::default(),
        language: None,
        is_binary: false,
        old_text: None,
        new_text: None,
        diffed: true,
    };
    let cs = Changeset {
        source: "t".into(),
        files: vec![f],
    };
    let p = Plan::build(&cs, &[false], LayoutMode::Stack, &nofold());
    assert_eq!(kinds(&p.rows), ["fh", "line", "line", "line", "hh", "line", "sp"]);
    let markers: Vec<u32> = p
        .rows
        .iter()
        .filter_map(|r| match r {
            Row::HunkHeader(n) => Some(*n),
            _ => None,
        })
        .collect();
    assert_eq!(markers, vec![12]);
}

fn two_dir_fixture() -> Changeset {
    let mk = |path: &str| DiffFile {
        path: path.into(),
        previous_path: None,
        status: FileStatus::Modified,
        staged: false,
        hunks: vec![Hunk {
            old_start: 1,
            old_len: 1,
            new_start: 1,
            new_len: 1,
            lines: vec![line(LineKind::Added, None, Some(1), "x")],
        }],
        stats: Stats {
            additions: 1,
            deletions: 0,
        },
        language: None,
        is_binary: false,
        old_text: None,
        new_text: None,
        diffed: true,
    };
    Changeset {
        source: "t".into(),
        files: vec![mk("a.rs"), mk("src/b.rs"), mk("src/c.rs")],
    }
}

#[test]
fn folded_directory_yields_one_placeholder_and_no_file_rows() {
    let cs = two_dir_fixture();
    let collapsed = vec!["src".to_string()];
    let p = Plan::build(&cs, &[false, false, false], LayoutMode::Stack, &collapsed);
    let headers: Vec<usize> = p
        .rows
        .iter()
        .filter_map(|r| match r {
            Row::FileHeader(i) => Some(*i),
            _ => None,
        })
        .collect();
    assert_eq!(headers, vec![0], "only the root file has a header; src is folded");
    let cdirs = p
        .rows
        .iter()
        .filter(|r| matches!(r, Row::CollapsedDir { .. }))
        .count();
    assert_eq!(cdirs, 1, "one placeholder for the folded directory");
    assert_eq!(p.visible_files, vec![0], "only the root file is visible");
    assert_eq!(p.visible_ordinal(0), Some(0));
    assert_eq!(p.visible_ordinal(1), None, "folded file has no visible ordinal");
    assert!(p.collapsed_row("src").is_some(), "the placeholder row is locatable");
}

#[test]
fn banner_rows_precede_files_and_offset_indices() {
    let cs = fixture();
    let banner = vec![
        "abc123 · me · 2026-06-30".to_string(),
        String::new(),
        "the message".to_string(),
    ];
    let p = Plan::build_with_banner(&cs, &[false], LayoutMode::Stack, &nofold(), &banner);
    assert_eq!(&kinds(&p.rows)[..4], ["ban", "ban", "ban", "sp"]);
    assert_eq!(p.file_starts, vec![4], "the file header is offset past the banner+spacer");
    assert_eq!(p.hunk_starts, vec![5], "hunk index carries the banner offset");
    let p0 = Plan::build(&cs, &[false], LayoutMode::Stack, &nofold());
    assert_eq!(p0.file_starts, vec![0]);
}

#[test]
fn viewed_file_collapses_to_one_placeholder() {
    let cs = fixture();
    let p = Plan::build(&cs, &[true], LayoutMode::Stack, &nofold());
    assert_eq!(kinds(&p.rows), ["fh", "col", "sp"]);
}

#[test]
fn binary_file_body_differs_by_layout() {
    let mut cs = fixture();
    cs.files[0].is_binary = true;
    cs.files[0].hunks.clear();
    let stack = Plan::build(&cs, &[false], LayoutMode::Stack, &nofold());
    assert_eq!(kinds(&stack.rows), ["fh", "line", "sp"]);
    let split = Plan::build(&cs, &[false], LayoutMode::Split, &nofold());
    assert_eq!(kinds(&split.rows), ["fh", "sp"]);
}

#[test]
fn file_at_locates_the_region_containing_a_row() {
    let starts = vec![0, 5, 12];
    assert_eq!(file_at(&starts, 0), 0, "exact match on a start");
    assert_eq!(file_at(&starts, 5), 1, "exact match on a later start");
    assert_eq!(file_at(&starts, 3), 0, "between starts → previous region");
    assert_eq!(file_at(&starts, 20), 2, "past the last start → last region");
    let starts2 = vec![3, 8];
    assert_eq!(file_at(&starts2, 1), 0, "before the first start → 0");
}

#[test]
fn collapsed_and_pending_chrome_match_across_layouts() {
    let mut cs = fixture();
    cs.files[0].diffed = false;
    for layout in [LayoutMode::Stack, LayoutMode::Split] {
        let p = Plan::build(&cs, &[false], layout, &nofold());
        assert_eq!(kinds(&p.rows), ["fh", "pend", "sp"], "undiffed chrome is layout-independent");
    }
}

#[test]
fn plan_file_starts_index_header_rows_in_order() {
    let cs = two_dir_fixture();
    let p = Plan::build(&cs, &[false, true, false], LayoutMode::Split, &nofold());
    assert_eq!(p.visible_files, vec![0, 1, 2]);
    assert_eq!(p.file_starts.len(), 3);
    for (k, &row) in p.file_starts.iter().enumerate() {
        assert!(matches!(p.rows[row], Row::FileHeader(i) if i == p.visible_files[k]));
        if k > 0 {
            assert!(p.file_starts[k - 1] < row);
        }
    }
}

#[test]
fn folded_placeholder_counts_files_and_reviewed() {
    let cs = two_dir_fixture();
    let collapsed = vec!["src".to_string()];
    let p = Plan::build(&cs, &[false, true, false], LayoutMode::Stack, &collapsed);
    let dir = p.rows.iter().find_map(|r| match r {
        Row::CollapsedDir { dir, n, reviewed } => Some((dir.clone(), *n, *reviewed)),
        _ => None,
    });
    assert_eq!(dir, Some(("src".to_string(), 2, 1)));
    assert_eq!(p.collapsed_row("nope"), None);
}

#[test]
fn banner_shifts_every_index_by_its_row_count() {
    let cs = two_dir_fixture();
    let banner = vec!["one".to_string(), "two".to_string()];
    let with = Plan::build_with_banner(&cs, &[false, false, false], LayoutMode::Stack, &nofold(), &banner);
    let without = Plan::build(&cs, &[false, false, false], LayoutMode::Stack, &nofold());
    let shift = banner.len() + 1;
    assert_eq!(with.rows.len(), without.rows.len() + shift);
    let shifted: Vec<usize> = without.file_starts.iter().map(|r| r + shift).collect();
    assert_eq!(with.file_starts, shifted);
    let shifted_h: Vec<usize> = without.hunk_starts.iter().map(|r| r + shift).collect();
    assert_eq!(with.hunk_starts, shifted_h);
    assert_eq!(with.visible_files, without.visible_files);
    assert_eq!(with.content_w, without.content_w);
}

#[test]
fn reviewed_chrome_matches_across_layouts() {
    let cs = fixture();
    let stack = Plan::build(&cs, &[true], LayoutMode::Stack, &nofold());
    let split = Plan::build(&cs, &[true], LayoutMode::Split, &nofold());
    assert_eq!(kinds(&stack.rows), kinds(&split.rows));
    assert!(matches!(split.rows[1], Row::Collapsed(1)));
}

#[test]
fn plan_shows_unfolded_files_and_ends_with_a_spacer() {
    let cs = two_dir_fixture();
    let all = Plan::build(&cs, &[false, false, false], LayoutMode::Split, &nofold());
    assert_eq!(all.visible_files, vec![0, 1, 2]);
    assert!(matches!(all.rows.last(), Some(Row::Spacer)));
    assert!(all.hunk_starts.windows(2).all(|w| w[0] <= w[1]));
    assert!(all.hunk_starts.iter().all(|&h| h < all.rows.len()));
    let folded = Plan::build(&cs, &[false, false, false], LayoutMode::Split, &vec!["src".to_string()]);
    assert_eq!(folded.visible_files, vec![0]);
    assert!(matches!(folded.rows.last(), Some(Row::Spacer)));
    assert!(folded.hunk_starts.iter().all(|&h| h < folded.rows.len()));
}

#[test]
fn split_cells_are_each_sides_lines_in_order() {
    let cs = fixture();
    let p = Plan::build(&cs, &[false], LayoutMode::Split, &nofold());
    let mut left = Vec::new();
    let mut right = Vec::new();
    let pairs = p.rows.iter().filter(|r| matches!(r, Row::Pair(..))).count();
    // one row for the context line, then max(2 removed, 1 added)
    assert_eq!(pairs, 3);
    for r in &p.rows {
        if let Row::Pair(l, rt) = r {
            assert!(l.is_some() || rt.is_some());
            if let Some(c) = l {
                left.push((c.lineno, c.text.clone(), c.kind));
            }
            if let Some(c) = rt {
                right.push((c.lineno, c.text.clone(), c.kind));
            }
        }
    }
    assert_eq!(
        left,
        vec![
            (Some(1), "ctx".to_string(), LineKind::Context),
            (Some(2), "a".to_string(), LineKind::Removed),
            (Some(3), "b".to_string(), LineKind::Removed),
        ]
    );
    assert_eq!(
        right,
        vec![(Some(1), "ctx".to_string(), LineKind::Context), (Some(2), "c".to_string(), LineKind::Added)]
    );
}
