//! Per-view navigation state: scroll position, selection and review marks.

use vstd::prelude::*;

verus! {

/// The navigation state of one view (a changeset being reviewed).
#[derive(Debug)]
pub struct ViewState {
    /// Per file: marked reviewed.
    pub viewed: Vec<bool>,
    /// The selected file (its `Changeset::files` index); also the nearby file
    /// while a folded directory's placeholder is selected.
    pub selected: usize,
    /// The selected folded directory, when the cursor is on its placeholder.
    pub selected_dir: Option<String>,
    /// Ask the sidebar to scroll the selection into view on the next layout.
    pub reveal_selected: bool,
    /// Top row of the diff viewport.
    pub scroll: usize,
    /// Horizontal pan of the diff body, in columns.
    pub h_scroll: usize,
    /// Soft-wrap long lines instead of panning.
    pub wrap: bool,
}

impl Default for ViewState {
    fn default() -> (v: ViewState)
        ensures
            v.viewed@.len() == 0,
            v.selected == 0,
            v.selected_dir.is_none(),
            !v.reveal_selected,
            v.scroll == 0,
            v.h_scroll == 0,
            !v.wrap,
    {
        ViewState {
            viewed: Vec::new(),
            selected: 0,
            selected_dir: None,
            reveal_selected: false,
            scroll: 0,
            h_scroll: 0,
            wrap: false,
        }
    }
}

impl ViewState {
    /// Put the cursor on file `i` (clearing any placeholder selection).
    pub fn select_file(&mut self, i: usize)
        ensures
            final(self).selected == i,
            final(self).selected_dir.is_none(),
            final(self).viewed == old(self).viewed,
            final(self).reveal_selected == old(self).reveal_selected,
            final(self).scroll == old(self).scroll,
            final(self).h_scroll == old(self).h_scroll,
            final(self).wrap == old(self).wrap,
    {
        self.selected = i;
        self.selected_dir = None;
    }

    /// Put the cursor on folded directory `dir`'s placeholder, keeping file
    /// `near` as the nearby fallback.
    pub fn select_dir(&mut self, dir: String, near: usize)
        ensures
            final(self).selected == near,
            final(self).selected_dir == Some(dir),
            final(self).viewed == old(self).viewed,
            final(self).reveal_selected == old(self).reveal_selected,
            final(self).scroll == old(self).scroll,
            final(self).h_scroll == old(self).h_scroll,
            final(self).wrap == old(self).wrap,
    {
        self.selected = near;
        self.selected_dir = Some(dir);
    }

    /// The selected file, or `None` while a placeholder is selected.
    pub fn selected_file(&self) -> (r: Option<usize>)
        ensures
            r == (if self.selected_dir.is_some() { None } else { Some(self.selected) }),
    {
        if self.selected_dir.is_some() {
            None
        } else {
            Some(self.selected)
        }
    }
}

} // verus!
