use rediff::tui::review::{count, next_unviewed_visible, toggle};
use rediff::tui::view::ViewState;

fn st(viewed: &[bool]) -> ViewState {
    ViewState {
        viewed: viewed.to_vec(),
        ..Default::default()
    }
}

#[test]
fn next_unviewed_wraps_and_skips_reviewed() {
    let s = st(&[true, false, true, false]);
    assert_eq!(next_unviewed_visible(&s, 0, 4, &[]), Some(1), "next unreviewed after 0");
    assert_eq!(next_unviewed_visible(&s, 1, 4, &[]), Some(3), "skips the reviewed file 2");
    assert_eq!(next_unviewed_visible(&s, 3, 4, &[]), Some(1), "wraps past the end");
}

#[test]
fn next_unviewed_none_when_all_reviewed_or_empty() {
    assert_eq!(next_unviewed_visible(&st(&[true, true]), 0, 2, &[]), None);
    assert_eq!(next_unviewed_visible(&st(&[]), 0, 0, &[]), None);
}

#[test]
fn next_unviewed_skips_hidden_files() {
    let s = st(&[true, false, true, false]);
    let hidden = [false, true, false, false];
    assert_eq!(next_unviewed_visible(&s, 0, 4, &hidden), Some(3), "the folded unreviewed file is skipped");
    let s2 = st(&[true, false, true, true]);
    let hidden2 = [false, true, false, false];
    assert_eq!(next_unviewed_visible(&s2, 0, 4, &hidden2), None, "all unreviewed files are folded away");
}

#[test]
fn toggle_and_count() {
    let mut s = st(&[false, false, false]);
    toggle(&mut s, 1);
    assert_eq!(s.viewed, vec![false, true, false]);
    assert_eq!(count(&s), 1);
    toggle(&mut s, 1);
    assert_eq!(count(&s), 0);
}

#[test]
fn toggle_out_of_range_is_a_noop_and_twice_restores() {
    let mut s = st(&[true, false]);
    toggle(&mut s, 5);
    assert_eq!(s.viewed, vec![true, false]);
    toggle(&mut s, 0);
    toggle(&mut s, 0);
    assert_eq!(s.viewed, vec![true, false]);
}

#[test]
fn next_unviewed_can_land_on_the_start_itself() {
    // The start is the last candidate of the wrap (step n).
    let s = st(&[false, true, true]);
    assert_eq!(next_unviewed_visible(&s, 0, 3, &[]), Some(0));
}
