use rediff::model::LayoutMode;
use rediff::tui::rows::{Plan, Row};
use rediff::tui::stream::{
    anchor_selected, bottom, clamp, current_file, h_scroll_by, half_page, jump_to_collapsed, jump_to_file,
    max_h_scroll, max_scroll, max_scroll_rows, next_hunk, page, prev_hunk, reanchored, scroll_by, scroll_to,
    toggle_wrap, top,
};
use rediff::tui::view::ViewState;

fn plan_with(rows: usize, file_starts: Vec<usize>) -> Plan {
    let visible_files = (0..file_starts.len()).collect();
    Plan {
        rows: (0..rows).map(|_| Row::Spacer).collect(),
        file_starts,
        visible_files,
        hunk_starts: Vec::new(),
        content_w: 0,
        layout: LayoutMode::Stack,
    }
}

#[test]
fn reanchored_keeps_banner_region_and_preserves_in_file_offset() {
    assert_eq!(reanchored(2, 5, 5), 2);
    assert_eq!(reanchored(0, 5, 9), 0);
    assert_eq!(reanchored(4, 5, 9), 4, "still above the header → unchanged");
    assert_eq!(reanchored(5, 5, 9), 9, "header → new header");
    assert_eq!(reanchored(7, 5, 9), 11, "offset 2 past the header preserved");
}

#[test]
fn scroll_by_clamps_to_the_plan() {
    let plan = plan_with(20, vec![0]);
    let mut st = ViewState::default();
    scroll_by(&mut st, &plan, 5, 1000);
    assert_eq!(st.scroll, 15, "clamped to max_scroll = rows - viewport");
    assert_eq!(max_scroll(&plan, 5), 15);
    scroll_by(&mut st, &plan, 5, -1000);
    assert_eq!(st.scroll, 0, "clamped at the top");
}

#[test]
fn jump_to_file_lands_on_the_file_start() {
    let plan = plan_with(20, vec![0, 8, 14]);
    let mut st = ViewState::default();
    jump_to_file(&mut st, &plan, 5, 1);
    assert_eq!(st.scroll, 8, "viewport top sits on file 1's header row");
    jump_to_file(&mut st, &plan, 5, 2);
    assert_eq!(st.scroll, 14);
}

#[test]
fn jump_to_file_is_a_noop_for_an_unknown_file() {
    let plan = plan_with(20, vec![0, 8]);
    let mut st = ViewState {
        scroll: 5,
        ..ViewState::default()
    };
    jump_to_file(&mut st, &plan, 5, 99);
    assert_eq!(st.scroll, 5, "unknown file index leaves scroll put");
}

#[test]
fn prev_hunk_steps_back_and_clamps_at_the_top() {
    let mut plan = plan_with(40, vec![0]);
    plan.hunk_starts = vec![5, 15, 25];
    let mut st = ViewState {
        scroll: 30,
        ..ViewState::default()
    };
    prev_hunk(&mut st, &plan, 10);
    assert_eq!(st.scroll, 25, "lands on the nearest earlier hunk start");
    prev_hunk(&mut st, &plan, 10);
    assert_eq!(st.scroll, 15, "steps back another hunk");
    st.scroll = 3;
    prev_hunk(&mut st, &plan, 10);
    assert_eq!(st.scroll, 3, "no earlier hunk → unchanged");
}

#[test]
fn next_hunk_steps_forward_and_clamps_to_the_last_page() {
    let mut plan = plan_with(40, vec![0, 20]);
    plan.hunk_starts = vec![5, 15, 35];
    let mut st = ViewState::default();
    next_hunk(&mut st, &plan, 10);
    assert_eq!(st.scroll, 5);
    assert_eq!(st.selected, 0);
    assert!(st.reveal_selected);
    next_hunk(&mut st, &plan, 10);
    assert_eq!(st.scroll, 15);
    next_hunk(&mut st, &plan, 10);
    assert_eq!(st.scroll, 30, "35 is clamped to max_scroll 30");
    assert_eq!(st.selected, 1, "the selection follows the file at the top");
    st.reveal_selected = false;
    st.scroll = 35;
    next_hunk(&mut st, &plan, 10);
    assert_eq!(st.scroll, 35, "no later hunk → unchanged");
    assert!(!st.reveal_selected);
}

#[test]
fn scroll_geometry_exact_values() {
    assert_eq!(max_scroll_rows(20, 5), 15);
    assert_eq!(max_scroll_rows(3, 5), 0);
    assert_eq!(max_scroll_rows(3, 0), 2, "a zero-height viewport counts as one row");
    let mut plan = plan_with(10, vec![0]);
    plan.content_w = 50;
    assert_eq!(max_h_scroll(&plan, 30), 20);
    plan.layout = LayoutMode::Split;
    assert_eq!(max_h_scroll(&plan, 31), 35, "split pans within a (31-1)/2 = 15 column");
    assert_eq!(max_h_scroll(&plan, 200), 0);
}

#[test]
fn current_file_follows_the_viewport_top() {
    let mut plan = plan_with(30, vec![2, 10, 20]);
    plan.visible_files = vec![4, 7, 9];
    let mut st = ViewState::default();
    assert_eq!(current_file(&st, &plan), 4, "above the first header → the first region");
    st.scroll = 10;
    assert_eq!(current_file(&st, &plan), 7);
    st.scroll = 25;
    assert_eq!(current_file(&st, &plan), 9);
    let empty = plan_with(5, vec![]);
    assert_eq!(current_file(&st, &empty), 0, "no visible file → 0");
    st.select_dir("d".into(), 3);
    anchor_selected(&mut st, &plan);
    assert_eq!(st.selected, 9);
    assert!(st.selected_dir.is_none());
    assert!(st.reveal_selected);
}

#[test]
fn paging_and_ends() {
    let plan = plan_with(100, vec![0, 50]);
    let mut st = ViewState::default();
    page(&mut st, &plan, 10, 1);
    assert_eq!(st.scroll, 9, "a page keeps one row of overlap");
    half_page(&mut st, &plan, 10, 1);
    assert_eq!(st.scroll, 14);
    half_page(&mut st, &plan, 10, -1);
    assert_eq!(st.scroll, 9);
    bottom(&mut st, &plan, 10);
    assert_eq!(st.scroll, 90);
    assert_eq!(st.selected, 1);
    top(&mut st, &plan);
    assert_eq!(st.scroll, 0);
    assert_eq!(st.selected, 0);
    page(&mut st, &plan, 1, 1);
    assert_eq!(st.scroll, 1, "a one-row viewport still moves a row");
}

#[test]
fn clamp_and_horizontal_scroll() {
    let mut plan = plan_with(10, vec![0]);
    plan.content_w = 40;
    let mut st = ViewState {
        scroll: 50,
        h_scroll: 99,
        ..ViewState::default()
    };
    clamp(&mut st, &plan, 4, 20);
    assert_eq!((st.scroll, st.h_scroll), (6, 20));
    h_scroll_by(&mut st, &plan, 20, -25);
    assert_eq!(st.h_scroll, 0);
    h_scroll_by(&mut st, &plan, 20, 7);
    assert_eq!(st.h_scroll, 7);
    toggle_wrap(&mut st);
    assert!(st.wrap);
    assert_eq!(st.h_scroll, 0);
    toggle_wrap(&mut st);
    assert!(!st.wrap);
}

#[test]
fn scroll_to_and_collapsed_jump() {
    let mut plan = plan_with(20, vec![0]);
    plan.rows[12] = Row::CollapsedDir { dir: "src".into(), n: 2, reviewed: 0 };
    let mut st = ViewState::default();
    scroll_to(&mut st, &plan, 5, 100);
    assert_eq!(st.scroll, 15);
    jump_to_collapsed(&mut st, &plan, 5, "src");
    assert_eq!(st.scroll, 12);
    jump_to_collapsed(&mut st, &plan, 5, "lib");
    assert_eq!(st.scroll, 12, "no placeholder → unchanged");
}

#[test]
fn current_file_follows_the_search_even_on_unsorted_starts() {
    let p = plan_with(30, vec![10, 0, 20]);
    let st = ViewState { scroll: 25, ..ViewState::default() };
    // The search over [10, 0, 20] for row 25 ends past the last start.
    assert_eq!(rediff::tui::stream::current_file(&st, &p), p.visible_files[2]);
}
