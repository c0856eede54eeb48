//! Reviewed-tracking operations over a view's [`ViewState`]: free functions,
//! so they are checkable in isolation; the caller rebuilds the plan and moves
//! the cursor.

use vstd::prelude::*;
use crate::tui::view::ViewState;

verus! {

/// The review marks `v` with file `idx`'s flipped (unchanged if out of range).
pub open spec fn toggled_marks(v: Seq<bool>, idx: int) -> Seq<bool> {
    if 0 <= idx < v.len() { v.update(idx, !v[idx]) } else { v }
}

/// Toggling a file twice restores the review marks.
pub proof fn toggle_twice_law(v: Seq<bool>, idx: int)
    ensures
        toggled_marks(toggled_marks(v, idx), idx) == v,
{
    assert(toggled_marks(toggled_marks(v, idx), idx) =~= v);
}

/// Toggle the reviewed flag for file `idx` (no-op if out of range).
pub fn toggle(st: &mut ViewState, idx: usize)
    ensures
        final(st).viewed@ == toggled_marks(old(st).viewed@, idx as int),
        final(st).selected == old(st).selected,
        final(st).selected_dir == old(st).selected_dir,
        final(st).reveal_selected == old(st).reveal_selected,
        final(st).scroll == old(st).scroll,
        final(st).h_scroll == old(st).h_scroll,
        final(st).wrap == old(st).wrap,
{
    if idx < st.viewed.len() {
        let v = st.viewed[idx];
        st.viewed.set(idx, !v);
    }
}

/// Whether file `idx` is a stop for "next unreviewed": not reviewed, and not
/// hidden (a missing `hidden` entry counts as visible).
pub open spec fn unviewed_visible(viewed: Seq<bool>, hidden: Seq<bool>, idx: int) -> bool {
    !viewed[idx] && !(idx < hidden.len() && hidden[idx])
}

/// The file `step` positions after `start`, wrapping over `n` files.
pub open spec fn wrap_at(start: int, step: int, n: int) -> int {
    (start + step) % n
}

/// The next file after `start` (wrapping) that is not reviewed and not hidden
/// in a folded directory (`hidden[i]` true → file `i` is out of scope; missing
/// entries count as visible). `None` if every visible file is reviewed (or
/// there are none). `n` is the file count, `viewed.len()`.
pub fn next_unviewed_visible(st: &ViewState, start: usize, n: usize, hidden: &[bool]) -> (r: Option<usize>)
    requires
        n == st.viewed@.len(),
        start + n <= usize::MAX,
    ensures
        r matches Some(idx) ==> exists|step: int| 1 <= step <= n && idx == wrap_at(start as int, step, n as int)
            && unviewed_visible(st.viewed@, hidden@, idx as int)
            && forall|e: int| 1 <= e < step ==> !unviewed_visible(st.viewed@, hidden@, #[trigger] wrap_at(start as int, e, n as int)),
        r is None ==> forall|e: int| 1 <= e <= n ==> !unviewed_visible(st.viewed@, hidden@, #[trigger] wrap_at(start as int, e, n as int)),
{
    if n == 0 {
        return None;
    }
    let mut k: usize = 0;
    while k < n
        invariant
            k <= n,
            n == st.viewed@.len(),
            n > 0,
            start + n <= usize::MAX,
            forall|e: int| 1 <= e < k + 1 ==> !unviewed_visible(st.viewed@, hidden@, #[trigger] wrap_at(start as int, e, n as int)),
        decreases n - k,
    {
        let idx = (start + k + 1) % n;
        let h = if idx < hidden.len() { hidden[idx] } else { false };
        if !st.viewed[idx] && !h {
            assert(unviewed_visible(st.viewed@, hidden@, wrap_at(start as int, k + 1, n as int)));
            return Some(idx);
        }
        assert(!unviewed_visible(st.viewed@, hidden@, wrap_at(start as int, k + 1, n as int)));
        k = k + 1;
    }
    None
}

/// Number of reviewed files.
pub open spec fn count_true(v: Seq<bool>) -> nat
    decreases v.len(),
{
    if v.len() == 0 {
        0
    } else {
        count_true(v.drop_last()) + (if v.last() { 1nat } else { 0nat })
    }
}

/// Count of reviewed files in the view.
pub fn count(st: &ViewState) -> (r: usize)
    ensures
        r == count_true(st.viewed@),
{
    let mut c: usize = 0;
    let mut i: usize = 0;
    while i < st.viewed.len()
        invariant
            i <= st.viewed@.len(),
            c == count_true(st.viewed@.take(i as int)),
            c <= i,
        decreases st.viewed@.len() - i,
    {
        if st.viewed[i] {
            c = c + 1;
        }
        i = i + 1;
        assert(st.viewed@.take(i as int).drop_last() =~= st.viewed@.take(i - 1));
    }
    assert(st.viewed@.take(i as int) =~= st.viewed@);
    c
}

} // verus!
