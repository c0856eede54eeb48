use rediff::model::{DiffFile, FileStatus};
use rediff::tui::sidebar::{
    digit_target, digit_to_offset, file_at_row, nav_sequence, offset_to_digit, row_at, row_of_file,
    row_of_selection, rows, scroll, step, window, Grouping, Nav, Rect, RowHit, SidebarRow,
};
use rediff::tui::view::ViewState;

fn mkfiles(paths: &[&str]) -> Vec<DiffFile> {
    paths
        .iter()
        .map(|p| DiffFile::stub((*p).to_string(), None, FileStatus::Modified, false, None))
        .collect()
}

fn nofold() -> Vec<String> {
    Vec::new()
}

fn folded(dirs: &[&str]) -> Vec<String> {
    dirs.iter().map(std::string::ToString::to_string).collect()
}

fn shape(files: &[DiffFile], r: &[SidebarRow]) -> Vec<String> {
    r.iter()
        .map(|row| match row {
            SidebarRow::Dir(d) if d.is_empty() => "[.]".to_string(),
            SidebarRow::Dir(d) => format!("[{d}]"),
            SidebarRow::File(i) => files[*i].path.clone(),
            SidebarRow::CollapsedFiles { dir, n } => format!("<{dir}:{n}>"),
        })
        .collect()
}

#[test]
fn rows_flat_is_one_per_file() {
    let files = mkfiles(&["a.rs", "src/b.rs"]);
    let r = rows(&files, Grouping::Flat, &nofold());
    assert_eq!(r.len(), 2);
    assert_eq!(r[0].file(), Some(0));
    assert_eq!(r[1].file(), Some(1));
}

#[test]
fn rows_bydir_one_dir_line_per_directory() {
    let files = mkfiles(&["README.md", "lib/b.rs", "src/a.rs", "src/c.rs", "src/tui/app.rs"]);
    let s = shape(&files, &rows(&files, Grouping::ByDir, &nofold()));
    assert_eq!(
        s,
        vec!["[.]", "README.md", "[lib]", "lib/b.rs", "[src]", "src/a.rs", "src/c.rs", "[src/tui]", "src/tui/app.rs"]
    );
}

#[test]
fn rows_bydir_single_directory_one_header() {
    let files = mkfiles(&["src/a.rs", "src/b.rs"]);
    let dirs = rows(&files, Grouping::ByDir, &nofold())
        .iter()
        .filter(|row| matches!(row, SidebarRow::Dir(_)))
        .count();
    assert_eq!(dirs, 1, "one header for one directory");
    assert_eq!(
        row_of_file(&rows(&files, Grouping::ByDir, &nofold()), 1),
        Some(2),
        "file 1 sits after the dir line"
    );
}

#[test]
fn file_at_row_honors_the_scroll_offset() {
    let area = Rect { x: 0, y: 0, width: 30, height: 6 };
    let flat: Vec<SidebarRow> = (0..12).map(SidebarRow::File).collect();
    assert_eq!(file_at_row(area, 4, 5, 1, 2, &flat), Some(6), "row 2 → file 4+2");
    assert_eq!(file_at_row(area, 4, 5, 1, 5, &flat), None, "past the last visible row");
    assert_eq!(file_at_row(area, 4, 5, 40, 2, &flat), None, "outside the sidebar columns");
}

#[test]
fn click_and_digits_skip_directory_lines() {
    let area = Rect { x: 0, y: 0, width: 30, height: 10 };
    let r = vec![
        SidebarRow::Dir("src".into()),
        SidebarRow::File(0),
        SidebarRow::File(1),
        SidebarRow::Dir("lib".into()),
        SidebarRow::File(2),
    ];
    assert_eq!(file_at_row(area, 0, 5, 1, 0, &r), None, "click on a Dir line → no file");
    assert_eq!(file_at_row(area, 0, 5, 1, 1, &r), Some(0), "click on the first file row");
    assert_eq!(file_at_row(area, 0, 5, 1, 4, &r), Some(2), "click on a file under the 2nd dir");
    assert_eq!(digit_target(1, 0, 5, &r), Some(0), "1 → first visible file");
    assert_eq!(digit_target(9, 0, 5, &r), Some(2), "9 → last visible file");
}

#[test]
fn window_reveals_the_selected_files_row_under_a_dir_line() {
    let r = vec![
        SidebarRow::Dir("a".into()),
        SidebarRow::File(0),
        SidebarRow::File(1),
        SidebarRow::Dir("b".into()),
        SidebarRow::File(2),
        SidebarRow::File(3),
    ];
    let mut st = ViewState {
        selected: 2,
        reveal_selected: true,
        ..Default::default()
    };
    let (top, visible) = window(&mut st, 0, 3, &r);
    assert!(top <= 4 && 4 < top + visible, "selected file's row (4) is in the window");
    assert!(!st.reveal_selected, "reveal consumed");
}

#[test]
fn step_walks_files_and_clamps() {
    let r: Vec<SidebarRow> = (0..5).map(SidebarRow::File).collect();
    let seq = nav_sequence(&r);
    let mut st = ViewState {
        selected: 0,
        ..Default::default()
    };
    assert_eq!(step(&mut st, &seq, -1), Some(Nav::File(0)), "clamped at the top");
    assert!(st.reveal_selected);
    assert_eq!(step(&mut st, &seq, 99), Some(Nav::File(4)), "clamped at the last file");
    assert_eq!(step(&mut st, &[], 1), None, "empty sequence → no move");
}

#[test]
fn folded_directory_yields_header_plus_one_placeholder() {
    let files = mkfiles(&["a.rs", "src/b.rs", "src/c.rs"]);
    let r = rows(&files, Grouping::ByDir, &folded(&["src"]));
    assert_eq!(shape(&files, &r), vec!["[.]", "a.rs", "[src]", "<src:2>"]);
}

#[test]
fn step_lands_on_a_placeholder_then_the_next_file() {
    let files = mkfiles(&["a.rs", "src/b.rs", "src/c.rs", "z/z.rs"]);
    let r = rows(&files, Grouping::ByDir, &folded(&["src"]));
    let seq = nav_sequence(&r);
    let mut st = ViewState {
        selected: 0,
        ..Default::default()
    };
    assert_eq!(step(&mut st, &seq, 1), Some(Nav::Dir("src".into())));
    assert_eq!(st.selected_dir.as_deref(), Some("src"), "cursor is on the placeholder");
    assert_eq!(st.selected_file(), None, "file actions inert on a placeholder");
    assert_eq!(step(&mut st, &seq, 1), Some(Nav::File(3)));
    assert_eq!(st.selected_file(), Some(3));
    assert!(st.selected_dir.is_none(), "moving onto a file clears the placeholder");
}

#[test]
fn click_on_placeholder_or_header_targets_the_directory() {
    let area = Rect { x: 0, y: 0, width: 30, height: 10 };
    let r = vec![
        SidebarRow::Dir(String::new()),
        SidebarRow::File(0),
        SidebarRow::Dir("src".into()),
        SidebarRow::CollapsedFiles { dir: "src".into(), n: 2 },
    ];
    assert!(
        matches!(row_at(area, 0, 4, 1, 2, &r), Some(RowHit::Dir(d)) if d == "src"),
        "click the src header"
    );
    assert!(
        matches!(row_at(area, 0, 4, 1, 3, &r), Some(RowHit::Dir(d)) if d == "src"),
        "click the placeholder"
    );
    assert!(matches!(row_at(area, 0, 4, 1, 1, &r), Some(RowHit::File(0))), "click a file row");
}

#[test]
fn window_reveals_a_selected_placeholder_scrolled_off() {
    let mut r: Vec<SidebarRow> = (0..10).map(SidebarRow::File).collect();
    r.push(SidebarRow::Dir("src".into()));
    r.push(SidebarRow::CollapsedFiles { dir: "src".into(), n: 3 });
    let mut st = ViewState {
        selected: 0,
        ..Default::default()
    };
    st.select_dir("src".into(), 0);
    st.reveal_selected = true;
    let (top, visible) = window(&mut st, 0, 4, &r);
    let ph_row = 11;
    assert!(top <= ph_row && ph_row < top + visible, "the placeholder row is revealed");
}

#[test]
fn digit_offsets_span_first_to_last() {
    assert_eq!(digit_to_offset(1, 17), 0);
    assert_eq!(digit_to_offset(9, 17), 16);
    assert_eq!(offset_to_digit(0, 17), Some(1));
    assert_eq!(offset_to_digit(16, 17), Some(9));
}

#[test]
fn digit_target_is_none_without_visible_files() {
    let r = vec![SidebarRow::Dir("src".into())];
    assert_eq!(digit_target(1, 0, 5, &r), None, "no visible files → None");
    assert_eq!(digit_target(9, 0, 5, &[]), None, "empty rows → None");
}

#[test]
fn digit_target_clamps_past_the_last_file() {
    let r: Vec<SidebarRow> = (0..2).map(SidebarRow::File).collect();
    assert_eq!(digit_target(1, 0, 5, &r), Some(0), "1 → first file");
    assert_eq!(digit_target(9, 0, 5, &r), Some(1), "9 clamps to the last");
}

#[test]
fn sparse_digit_mapping_spreads_evenly() {
    assert_eq!(digit_to_offset(1, 17), 0);
    assert_eq!(digit_to_offset(9, 17), 16);
    assert_eq!(digit_to_offset(5, 17), 8);
    assert_eq!(offset_to_digit(0, 17), Some(1));
    assert_eq!(offset_to_digit(16, 17), Some(9));
    assert_eq!(digit_to_offset(2, 3), 1);
}

#[test]
fn digit_mapping_round_trips_on_the_digits_own_offsets() {
    for vis in [1usize, 2, 5, 9, 10, 17, 100] {
        for d in 1..=9usize {
            let off = digit_to_offset(d, vis);
            assert!(off < vis);
            let back = offset_to_digit(off, vis).unwrap();
            assert_eq!(digit_to_offset(back, vis), off);
            assert!(back <= d);
        }
    }
    assert_eq!(offset_to_digit(3, 17), None, "offset 3 is between digits 1 and 2");
}

#[test]
fn scroll_clamps_both_ends() {
    assert_eq!(scroll(3, 5, 20, -10), 0);
    assert_eq!(scroll(3, 5, 20, 100), 15);
    assert_eq!(scroll(3, 5, 20, 4), 7);
    assert_eq!(scroll(0, 0, 4, 10), 3, "a zero height counts as one row");
    assert_eq!(scroll(0, 10, 4, 10), 0, "everything fits");
}

#[test]
fn grouping_toggles_back_and_forth() {
    assert_eq!(Grouping::Flat.toggled(), Grouping::ByDir);
    assert_eq!(Grouping::ByDir.toggled().toggled(), Grouping::ByDir);
}

#[test]
fn row_of_selection_follows_file_or_placeholder() {
    let files = mkfiles(&["a.rs", "src/b.rs", "src/c.rs"]);
    let r = rows(&files, Grouping::ByDir, &folded(&["src"]));
    let mut st = ViewState::default();
    assert_eq!(row_of_selection(&r, &st), Some(1));
    st.select_dir("src".into(), 0);
    assert_eq!(row_of_selection(&r, &st), Some(3));
    st.select_file(2);
    assert_eq!(row_of_selection(&r, &st), None, "a folded file has no row");
}

#[test]
fn window_keeps_a_manual_scroll_without_a_reveal() {
    let r: Vec<SidebarRow> = (0..10).map(SidebarRow::File).collect();
    let mut st = ViewState::default();
    assert_eq!(window(&mut st, 4, 3, &r), (4, 3));
    assert_eq!(window(&mut st, 9, 3, &r), (7, 3), "clamped so the window stays full");
    assert_eq!(window(&mut st, 0, 30, &r), (0, 10));
    assert_eq!(window(&mut st, 0, 3, &[]), (0, 1), "at least one visible row");
}

#[test]
fn step_takes_any_delta_the_cursor_can_add() {
    let r: Vec<SidebarRow> = (0..3).map(SidebarRow::File).collect();
    let seq = nav_sequence(&r);
    let mut st = ViewState::default();
    assert_eq!(step(&mut st, &seq, isize::MAX - 1), Some(Nav::File(2)));
    assert_eq!(step(&mut st, &seq, isize::MIN), Some(Nav::File(0)));
}

#[test]
fn each_unfolded_file_has_exactly_one_file_row() {
    let files = mkfiles(&["a.rs", "src/b.rs", "src/c.rs", "z/d.rs"]);
    let file_rows = |r: &[SidebarRow]| r.iter().filter_map(SidebarRow::file).collect::<Vec<usize>>();
    assert_eq!(file_rows(&rows(&files, Grouping::Flat, &folded(&["src"]))), vec![0, 1, 2, 3]);
    assert_eq!(file_rows(&rows(&files, Grouping::ByDir, &nofold())), vec![0, 1, 2, 3]);
    assert_eq!(file_rows(&rows(&files, Grouping::ByDir, &folded(&["src"]))), vec![0, 3]);
}
