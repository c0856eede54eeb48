//! Diff-stream navigation: viewport and cursor operations over a view's
//! [`ViewState`] and an immutable [`Plan`]. They touch only the scroll and
//! selection state, the plan and the viewport geometry.

use vstd::prelude::*;
use crate::model::LayoutMode;
use crate::tui::rows::{Plan, file_at, file_at_spec, is_dir_row};
use crate::tui::sidebar::clamp_int;
use crate::tui::view::ViewState;

verus! {

/// `a - b`, or 0 when `b > a`.
pub open spec fn sat(a: int, b: int) -> int {
    if a >= b { a - b } else { 0 }
}

/// One split column's text width in a `viewport_w`-wide viewport.
pub open spec fn split_col_w_spec(viewport_w: int) -> int {
    sat(viewport_w, 1) / 2
}

/// One split column's text width (the split layout's column geometry).
fn split_col_w(viewport_w: usize) -> (r: usize)
    ensures
        r == split_col_w_spec(viewport_w as int),
{
    (if viewport_w >= 1 { viewport_w - 1 } else { 0 }) / 2
}

/// The widest horizontal scroll: content width beyond what one viewport (one
/// column in split layout) shows.
pub open spec fn max_h_scroll_spec(content_w: int, split: bool, viewport_w: int) -> int {
    sat(content_w, if split { split_col_w_spec(viewport_w) } else { viewport_w })
}

/// Max horizontal scroll: content width beyond the viewport. In split layout the
/// bound is one column's width, since each side pans within its own column.
pub fn max_h_scroll(plan: &Plan, viewport_w: usize) -> (r: usize)
    ensures
        r == max_h_scroll_spec(plan.content_w as int, plan.layout == LayoutMode::Split, viewport_w as int),
{
    let visible = match plan.layout {
        LayoutMode::Split => split_col_w(viewport_w),
        LayoutMode::Stack => viewport_w,
    };
    if plan.content_w >= visible { plan.content_w - visible } else { 0 }
}

/// The last viewport top that still fills a `viewport_h`-tall viewport (at
/// least one row tall) over `rows` rows.
pub open spec fn max_scroll_spec(rows: int, viewport_h: int) -> int {
    sat(rows, if viewport_h >= 1 { viewport_h } else { 1 })
}

/// Max vertical scroll for a `rows`-row body in a `viewport_h`-tall viewport:
/// the last top that still fills the viewport, so the final page stays full.
pub fn max_scroll_rows(rows: usize, viewport_h: usize) -> (r: usize)
    ensures
        r == max_scroll_spec(rows as int, viewport_h as int),
{
    let h = if viewport_h >= 1 { viewport_h } else { 1 };
    if rows >= h { rows - h } else { 0 }
}

/// Max vertical scroll: the last viewport top that still shows content.
pub fn max_scroll(plan: &Plan, viewport_h: usize) -> (r: usize)
    ensures
        r == max_scroll_spec(plan.rows@.len() as int, viewport_h as int),
{
    max_scroll_rows(plan.rows.len(), viewport_h)
}

/// The file (a `Changeset::files` index) whose region holds row `row`: the
/// visible file at [`file_at_spec`] of the file starts, or 0 when there is
/// none.
pub open spec fn top_file(file_starts: Seq<usize>, visible_files: Seq<usize>, row: usize) -> usize {
    let ord = file_at_spec(file_starts, row);
    if ord < visible_files.len() { visible_files[ord] } else { 0 }
}

/// `Changeset::files` index of the file currently at the top of the viewport:
/// [`file_at`] gives a visible ordinal, mapped back through `visible_files`.
/// Falls back to 0 when no file is visible.
pub fn current_file(st: &ViewState, plan: &Plan) -> (r: usize)
    ensures
        r == top_file(plan.file_starts@, plan.visible_files@, st.scroll),
        r == 0 || plan.visible_files@.contains(r),
{
    let ord = file_at(plan.file_starts.as_slice(), st.scroll);
    if ord < plan.visible_files.len() {
        plan.visible_files[ord]
    } else {
        0
    }
}

/// `after` is `before` with the viewport top at `scroll`, the selection
/// anchored on the file at that top (any placeholder selection cleared) and a
/// sidebar reveal requested; nothing else changes.
pub open spec fn anchored(before: ViewState, after: ViewState, plan: Plan, scroll: int) -> bool {
    &&& after.scroll == scroll
    &&& after.selected == top_file(plan.file_starts@, plan.visible_files@, after.scroll)
    &&& (after.selected == 0 || plan.visible_files@.contains(after.selected))
    &&& after.selected_dir is None
    &&& after.reveal_selected
    &&& after.viewed == before.viewed
    &&& after.h_scroll == before.h_scroll
    &&& after.wrap == before.wrap
}

/// While scrolling, the active (sidebar-highlighted) file follows the file at
/// the top of the viewport, and the sidebar reveals it.
pub fn anchor_selected(st: &mut ViewState, plan: &Plan)
    ensures
        anchored(*old(st), *final(st), *plan, old(st).scroll as int),
{
    let f = current_file(st, plan);
    st.select_file(f);
    st.reveal_selected = true;
}

/// `after` is `before` with only the vertical scroll changed, to `scroll`.
pub open spec fn scrolled_to(before: ViewState, after: ViewState, scroll: int) -> bool {
    &&& after.scroll == scroll
    &&& after.viewed == before.viewed
    &&& after.selected == before.selected
    &&& after.selected_dir == before.selected_dir
    &&& after.reveal_selected == before.reveal_selected
    &&& after.h_scroll == before.h_scroll
    &&& after.wrap == before.wrap
}

/// The smaller of two integers.
pub open spec fn min_int(a: int, b: int) -> int {
    if a <= b { a } else { b }
}

/// Clamp scroll and horizontal scroll into range (after a resize or a plan
/// rebuild).
pub fn clamp(st: &mut ViewState, plan: &Plan, viewport_h: usize, viewport_w: usize)
    ensures
        final(st).scroll == min_int(old(st).scroll as int, max_scroll_spec(plan.rows@.len() as int, viewport_h as int)),
        final(st).h_scroll == min_int(old(st).h_scroll as int,
            max_h_scroll_spec(plan.content_w as int, plan.layout == LayoutMode::Split, viewport_w as int)),
        final(st).viewed == old(st).viewed,
        final(st).selected == old(st).selected,
        final(st).selected_dir == old(st).selected_dir,
        final(st).reveal_selected == old(st).reveal_selected,
        final(st).wrap == old(st).wrap,
{
    let ms = max_scroll(plan, viewport_h);
    if st.scroll > ms {
        st.scroll = ms;
    }
    let mh = max_h_scroll(plan, viewport_w);
    if st.h_scroll > mh {
        st.h_scroll = mh;
    }
}

/// Re-anchor a viewport `scroll` after a plan rebuild. Normally the offset
/// within the anchor file is preserved (`new_start + (scroll − old_start)`). A
/// scroll parked above the anchor file's header — the fixed commit-message
/// banner region at the top of the plan (`scroll < old_start`) — is kept
/// exactly where it is, so a streaming rebuild doesn't yank the banner away.
pub fn reanchored(scroll: usize, old_start: usize, new_start: usize) -> (r: usize)
    requires
        scroll >= old_start ==> new_start + (scroll - old_start) <= usize::MAX,
    ensures
        scroll < old_start ==> r == scroll,
        scroll >= old_start ==> r - new_start == scroll - old_start,
{
    if scroll < old_start {
        scroll
    } else {
        new_start + (scroll - old_start)
    }
}

/// Scroll the viewport so its top is `row`, clamped to the last full page.
pub fn scroll_to(st: &mut ViewState, plan: &Plan, viewport_h: usize, row: usize)
    ensures
        scrolled_to(*old(st), *final(st), min_int(row as int, max_scroll_spec(plan.rows@.len() as int, viewport_h as int))),
{
    let ms = max_scroll(plan, viewport_h);
    st.scroll = if row <= ms { row } else { ms };
}

/// Scroll the viewport by `delta` rows, clamped to `[0, max_scroll]`, and
/// re-anchor the selection on the file at the new top.
pub fn scroll_by(st: &mut ViewState, plan: &Plan, viewport_h: usize, delta: isize)
    requires
        old(st).scroll <= isize::MAX,
        plan.rows@.len() <= isize::MAX,
        isize::MIN <= old(st).scroll + delta <= isize::MAX,
    ensures
        anchored(*old(st), *final(st), *plan,
            clamp_int(old(st).scroll + delta, 0, max_scroll_spec(plan.rows@.len() as int, viewport_h as int))),
{
    let ms = max_scroll(plan, viewport_h) as isize;
    let next = st.scroll as isize + delta;
    let v: isize = if next < 0 { 0 } else if next > ms { ms } else { next };
    st.scroll = v as usize;
    anchor_selected(st, plan);
}

/// The scroll step of a page: one row less than the viewport (at least 1).
pub open spec fn page_step(viewport_h: int) -> int {
    let s = sat(viewport_h, 1);
    if s >= 1 { s } else { 1 }
}

/// Scroll by a page (`dir` pages; -1 up, 1 down), keeping one row of overlap.
pub fn page(st: &mut ViewState, plan: &Plan, viewport_h: usize, dir: isize)
    requires
        old(st).scroll <= isize::MAX,
        plan.rows@.len() <= isize::MAX,
        viewport_h <= isize::MAX,
        isize::MIN <= dir * page_step(viewport_h as int) <= isize::MAX,
        isize::MIN <= old(st).scroll + dir * page_step(viewport_h as int) <= isize::MAX,
    ensures
        anchored(*old(st), *final(st), *plan, clamp_int(old(st).scroll + dir * page_step(viewport_h as int), 0,
            max_scroll_spec(plan.rows@.len() as int, viewport_h as int))),
{
    let s = if viewport_h >= 1 { viewport_h - 1 } else { 0 };
    let step = (if s >= 1 { s } else { 1 }) as isize;
    scroll_by(st, plan, viewport_h, dir * step);
}

/// The scroll step of a half page: half the viewport (at least 1).
pub open spec fn half_step(viewport_h: int) -> int {
    if viewport_h / 2 >= 1 { viewport_h / 2 } else { 1 }
}

/// Scroll by half a page (`dir` half pages; -1 up, 1 down).
pub fn half_page(st: &mut ViewState, plan: &Plan, viewport_h: usize, dir: isize)
    requires
        old(st).scroll <= isize::MAX,
        plan.rows@.len() <= isize::MAX,
        viewport_h <= isize::MAX,
        isize::MIN <= dir * half_step(viewport_h as int) <= isize::MAX,
        isize::MIN <= old(st).scroll + dir * half_step(viewport_h as int) <= isize::MAX,
    ensures
        anchored(*old(st), *final(st), *plan, clamp_int(old(st).scroll + dir * half_step(viewport_h as int), 0,
            max_scroll_spec(plan.rows@.len() as int, viewport_h as int))),
{
    let h = viewport_h / 2;
    let step = (if h >= 1 { h } else { 1 }) as isize;
    scroll_by(st, plan, viewport_h, dir * step);
}

/// Jump to the top of the stream.
pub fn top(st: &mut ViewState, plan: &Plan)
    ensures
        anchored(*old(st), *final(st), *plan, 0),
{
    st.scroll = 0;
    anchor_selected(st, plan);
}

/// Jump to the last full page of the stream.
pub fn bottom(st: &mut ViewState, plan: &Plan, viewport_h: usize)
    ensures
        anchored(*old(st), *final(st), *plan, max_scroll_spec(plan.rows@.len() as int, viewport_h as int)),
{
    st.scroll = max_scroll(plan, viewport_h);
    anchor_selected(st, plan);
}

/// The first start from index `k` on that lies after `row`.
pub open spec fn next_start_from(starts: Seq<usize>, row: usize, k: int) -> Option<usize>
    decreases starts.len() - k,
{
    if k < 0 || k >= starts.len() {
        None
    } else if starts[k] > row {
        Some(starts[k])
    } else {
        next_start_from(starts, row, k + 1)
    }
}

/// The last of `starts[..k]` that lies before `row`.
pub open spec fn prev_start_before(starts: Seq<usize>, row: usize, k: int) -> Option<usize>
    decreases k,
{
    if k <= 0 || k > starts.len() {
        None
    } else if starts[k - 1] < row {
        Some(starts[k - 1])
    } else {
        prev_start_before(starts, row, k - 1)
    }
}

/// Jump to the first hunk that starts below the viewport top (the first
/// such start in stream order), re-anchoring the selection; nothing changes
/// when there is none.
pub fn next_hunk(st: &mut ViewState, plan: &Plan, viewport_h: usize)
    ensures
        match next_start_from(plan.hunk_starts@, old(st).scroll, 0) {
            Some(row) => anchored(*old(st), *final(st), *plan,
                min_int(row as int, max_scroll_spec(plan.rows@.len() as int, viewport_h as int))),
            None => *final(st) == *old(st),
        },
{
    let ghost s0 = *st;
    let mut k: usize = 0;
    while k < plan.hunk_starts.len()
        invariant
            k <= plan.hunk_starts@.len(),
            *st == s0,
            s0 == *old(st),
            next_start_from(plan.hunk_starts@, st.scroll, 0) == next_start_from(plan.hunk_starts@, st.scroll, k as int),
        decreases plan.hunk_starts@.len() - k,
    {
        let r = plan.hunk_starts[k];
        if r > st.scroll {
            scroll_to(st, plan, viewport_h, r);
            anchor_selected(st, plan);
            return;
        }
        k = k + 1;
    }
}

/// Jump to the nearest hunk that starts above the viewport top (the last such
/// start in stream order), re-anchoring the selection; nothing changes when
/// there is none.
pub fn prev_hunk(st: &mut ViewState, plan: &Plan, viewport_h: usize)
    ensures
        match prev_start_before(plan.hunk_starts@, old(st).scroll, plan.hunk_starts@.len() as int) {
            Some(row) => anchored(*old(st), *final(st), *plan,
                min_int(row as int, max_scroll_spec(plan.rows@.len() as int, viewport_h as int))),
            None => *final(st) == *old(st),
        },
{
    let ghost n = plan.hunk_starts@.len() as int;
    let ghost s0 = *st;
    let mut k: usize = plan.hunk_starts.len();
    while k > 0
        invariant
            k <= plan.hunk_starts@.len(),
            *st == s0,
            s0 == *old(st),
            n == plan.hunk_starts@.len(),
            prev_start_before(plan.hunk_starts@, st.scroll, n) == prev_start_before(plan.hunk_starts@, st.scroll, k as int),
        decreases k,
    {
        let r = plan.hunk_starts[k - 1];
        if r < st.scroll {
            scroll_to(st, plan, viewport_h, r);
            anchor_selected(st, plan);
            return;
        }
        k = k - 1;
    }
}

/// Jump the viewport to a file's header row (no selection change). `idx` is a
/// `Changeset::files` index, mapped to its visible ordinal first (its first
/// occurrence in `visible_files`). A folded file has no row, so the jump is a
/// no-op.
pub fn jump_to_file(st: &mut ViewState, plan: &Plan, viewport_h: usize, idx: usize)
    ensures
        forall|k: int| 0 <= k < plan.visible_files@.len() && plan.visible_files@[k] == idx
            && (forall|j: int| 0 <= j < k ==> plan.visible_files@[j] != idx) ==> {
                if k < plan.file_starts@.len() {
                    scrolled_to(*old(st), *final(st),
                        min_int(plan.file_starts@[k] as int, max_scroll_spec(plan.rows@.len() as int, viewport_h as int)))
                } else {
                    *final(st) == *old(st)
                }
            },
        (forall|k: int| 0 <= k < plan.visible_files@.len() ==> plan.visible_files@[k] != idx) ==> *final(st) == *old(st),
{
    match plan.visible_ordinal(idx) {
        Some(ord) => {
            if ord < plan.file_starts.len() {
                let row = plan.file_starts[ord];
                scroll_to(st, plan, viewport_h, row);
            }
        }
        None => {}
    }
}

/// Scroll the viewport to a folded directory's placeholder row (the first
/// one for `dir`); nothing changes when `dir` has none.
pub fn jump_to_collapsed(st: &mut ViewState, plan: &Plan, viewport_h: usize, dir: &str)
    ensures
        forall|k: int| 0 <= k < plan.rows@.len() && is_dir_row(plan.rows@[k]@, dir@)
            && (forall|j: int| 0 <= j < k ==> !is_dir_row(#[trigger] plan.rows@[j]@, dir@)) ==>
            scrolled_to(*old(st), *final(st), min_int(k, max_scroll_spec(plan.rows@.len() as int, viewport_h as int))),
        (forall|k: int| 0 <= k < plan.rows@.len() ==> !is_dir_row(#[trigger] plan.rows@[k]@, dir@)) ==> *final(st) == *old(st),
{
    match plan.collapsed_row(dir) {
        Some(row) => scroll_to(st, plan, viewport_h, row),
        None => {}
    }
}

/// Pan horizontally by `delta` columns, clamped to `[0, max_h_scroll]`.
pub fn h_scroll_by(st: &mut ViewState, plan: &Plan, viewport_w: usize, delta: isize)
    requires
        old(st).h_scroll <= isize::MAX,
        plan.content_w <= isize::MAX,
        isize::MIN <= old(st).h_scroll + delta <= isize::MAX,
    ensures
        final(st).h_scroll == clamp_int(old(st).h_scroll + delta, 0,
            max_h_scroll_spec(plan.content_w as int, plan.layout == LayoutMode::Split, viewport_w as int)),
        final(st).viewed == old(st).viewed,
        final(st).selected == old(st).selected,
        final(st).selected_dir == old(st).selected_dir,
        final(st).reveal_selected == old(st).reveal_selected,
        final(st).scroll == old(st).scroll,
        final(st).wrap == old(st).wrap,
{
    let max = max_h_scroll(plan, viewport_w) as isize;
    let next = st.h_scroll as isize + delta;
    let v: isize = if next < 0 { 0 } else if next > max { max } else { next };
    st.h_scroll = v as usize;
}

/// Toggle soft wrap; the horizontal pan resets.
pub fn toggle_wrap(st: &mut ViewState)
    ensures
        final(st).wrap == !old(st).wrap,
        final(st).h_scroll == 0,
        final(st).viewed == old(st).viewed,
        final(st).selected == old(st).selected,
        final(st).selected_dir == old(st).selected_dir,
        final(st).reveal_selected == old(st).reveal_selected,
        final(st).scroll == old(st).scroll,
{
    st.wrap = !st.wrap;
    st.h_scroll = 0;
}

} // verus!
