//! Sidebar windowing, hit-testing, and digit jumps: pure geometry over the
//! file list and a view's [`ViewState`]; the caller applies focus/jump side
//! effects.

use vstd::prelude::*;
use crate::model::{DiffFile, parent_dir, parent_dir_spec};
use crate::text::str_eq;
use crate::tui::rows::{is_folded, strs_v};
use crate::tui::view::ViewState;

verus! {

/// A screen rectangle in terminal cells.
#[derive(Debug, Clone, Copy, PartialEq, Eq, Default, Structural)]
pub struct Rect {
    pub x: u16,
    pub y: u16,
    pub width: u16,
    pub height: u16,
}

/// How the sidebar file list is laid out.
#[derive(Debug, Clone, Copy, PartialEq, Eq, Structural)]
pub enum Grouping {
    /// A plain list, one row per file.
    Flat,
    /// Files grouped under a directory line per parent directory.
    ByDir,
}

/// The other grouping mode.
pub open spec fn other_grouping(g: Grouping) -> Grouping {
    match g {
        Grouping::Flat => Grouping::ByDir,
        Grouping::ByDir => Grouping::Flat,
    }
}

/// Toggling the grouping changes it, and toggling twice restores it.
pub proof fn grouping_toggle_law(g: Grouping)
    ensures
        other_grouping(g) != g,
        other_grouping(other_grouping(g)) == g,
{
}

impl Grouping {
    /// The other mode (for the `g` toggle).
    pub fn toggled(self) -> (g: Grouping)
        ensures
            g == other_grouping(self),
    {
        match self {
            Grouping::Flat => Grouping::ByDir,
            Grouping::ByDir => Grouping::Flat,
        }
    }
}

/// One rendered row of the sidebar: a directory line (chrome), a file, or a
/// folded directory's placeholder standing in for its hidden files.
#[derive(Debug)]
pub enum SidebarRow {
    /// A directory line carrying the group's parent path (`""` renders as `./`).
    Dir(String),
    /// A file row carrying its index into the file list.
    File(usize),
    /// A folded directory's placeholder: the parent path and how many files
    /// it hides.
    CollapsedFiles { dir: String, n: usize },
}

/// The abstract value of a [`SidebarRow`].
pub enum SidebarRowV {
    Dir(Seq<char>),
    File(usize),
    CollapsedFiles { dir: Seq<char>, n: usize },
}

impl View for SidebarRow {
    type V = SidebarRowV;

    open spec fn view(&self) -> SidebarRowV {
        match self {
            SidebarRow::Dir(d) => SidebarRowV::Dir(d@),
            SidebarRow::File(i) => SidebarRowV::File(*i),
            SidebarRow::CollapsedFiles { dir, n } => SidebarRowV::CollapsedFiles { dir: dir@, n: *n },
        }
    }
}

/// The views of a sequence of sidebar rows.
pub open spec fn srows_view(rs: Seq<SidebarRow>) -> Seq<SidebarRowV> {
    rs.map_values(|r: SidebarRow| r@)
}

/// The file index of a row, if it is a file row.
pub open spec fn row_file(r: SidebarRowV) -> Option<usize> {
    match r {
        SidebarRowV::File(i) => Some(i),
        _ => None,
    }
}

impl SidebarRow {
    /// The file index, if this is a file row (placeholders and dir lines: `None`).
    pub fn file(&self) -> (r: Option<usize>)
        ensures
            r == row_file(self@),
    {
        match self {
            SidebarRow::File(i) => Some(*i),
            SidebarRow::Dir(_) | SidebarRow::CollapsedFiles { .. } => None,
        }
    }
}

/// A cursor stop in the sidebar: a visible file, or a folded directory's
/// placeholder. Directory headers are chrome and never a stop.
#[derive(Debug, Clone, PartialEq, Eq)]
pub enum Nav {
    File(usize),
    Dir(String),
}

/// The abstract value of a [`Nav`].
pub enum NavV {
    File(usize),
    Dir(Seq<char>),
}

impl View for Nav {
    type V = NavV;

    open spec fn view(&self) -> NavV {
        match self {
            Nav::File(i) => NavV::File(*i),
            Nav::Dir(d) => NavV::Dir(d@),
        }
    }
}

impl Nav {
    /// A copy of this stop.
    pub fn duplicate(&self) -> (r: Nav)
        ensures
            r@ == self@,
    {
        match self {
            Nav::File(i) => Nav::File(*i),
            Nav::Dir(d) => Nav::Dir(d.clone()),
        }
    }
}

/// The views of a nav sequence.
pub open spec fn navs_view(ns: Seq<Nav>) -> Seq<NavV> {
    ns.map_values(|n: Nav| n@)
}

/// What a click landed on: a file (select + jump) or a directory line /
/// placeholder (toggle its fold).
#[derive(Debug)]
pub enum RowHit {
    File(usize),
    Dir(String),
}

/// How many files from `i` on share parent directory `dir`.
pub open spec fn same_dir_run(files: Seq<DiffFile>, i: int, dir: Seq<char>) -> nat
    decreases files.len() - i,
{
    if 0 <= i < files.len() && parent_dir_spec(files[i].path@) == dir {
        1 + same_dir_run(files, i + 1, dir)
    } else {
        0
    }
}

/// The grouped rows from file `i` on: per directory run, a directory line
/// followed by either its file rows or (when folded) one placeholder.
pub open spec fn bydir_rows(files: Seq<DiffFile>, i: int, collapsed: Seq<Seq<char>>) -> Seq<SidebarRowV>
    decreases files.len() - i,
{
    if i < 0 || i >= files.len() {
        Seq::empty()
    } else {
        let dir = parent_dir_spec(files[i].path@);
        let n = same_dir_run(files, i, dir);
        let body = if is_folded(collapsed, dir) {
            seq![SidebarRowV::CollapsedFiles { dir: dir, n: n as usize }]
        } else {
            Seq::new(n, |k: int| SidebarRowV::File((i + k) as usize))
        };
        proof {
            lemma_same_dir_run_pos(files, i, dir);
        }
        seq![SidebarRowV::Dir(dir)] + body + bydir_rows(files, i + n, collapsed)
    }
}

pub proof fn lemma_same_dir_run_pos(files: Seq<DiffFile>, i: int, dir: Seq<char>)
    requires
        0 <= i < files.len(),
        dir == parent_dir_spec(files[i].path@),
    ensures
        1 <= same_dir_run(files, i, dir) <= files.len() - i,
{
    lemma_same_dir_run_bound(files, i, dir);
}

proof fn lemma_same_dir_run_bound(files: Seq<DiffFile>, i: int, dir: Seq<char>)
    requires
        0 <= i,
    ensures
        same_dir_run(files, i, dir) <= if files.len() >= i { files.len() - i } else { 0 },
    decreases files.len() - i,
{
    if 0 <= i < files.len() && parent_dir_spec(files[i].path@) == dir {
        lemma_same_dir_run_bound(files, i + 1, dir);
    }
}

/// The sidebar rows for `files` under `grouping`: `Flat` is one file row per
/// file; `ByDir` is [`bydir_rows`] (files must be path-sorted so each
/// directory's files are contiguous).
pub open spec fn rows_spec(files: Seq<DiffFile>, grouping: Grouping, collapsed: Seq<Seq<char>>) -> Seq<SidebarRowV> {
    match grouping {
        Grouping::Flat => Seq::new(files.len(), |k: int| SidebarRowV::File(k as usize)),
        Grouping::ByDir => bydir_rows(files, 0, collapsed),
    }
}

/// Build the sidebar's rows for `files` under `grouping`, with `collapsed`
/// directories folded (see [`rows_spec`]).
pub fn rows(files: &[DiffFile], grouping: Grouping, collapsed: &[String]) -> (r: Vec<SidebarRow>)
    ensures
        srows_view(r@) == rows_spec(files@, grouping, strs_v(collapsed@)),
{
    let ghost cv = strs_v(collapsed@);
    let mut out: Vec<SidebarRow> = Vec::new();
    match grouping {
        Grouping::Flat => {
            let mut k: usize = 0;
            while k < files.len()
                invariant
                    k <= files@.len(),
                    srows_view(out@) == Seq::new(k as nat, |j: int| SidebarRowV::File(j as usize)),
                decreases files@.len() - k,
            {
                let ghost prev = srows_view(out@);
                out.push(SidebarRow::File(k));
                assert(srows_view(out@) =~= prev.push(SidebarRowV::File(k)));
                k = k + 1;
                assert(srows_view(out@) =~= Seq::new(k as nat, |j: int| SidebarRowV::File(j as usize)));
            }
            out
        }
        Grouping::ByDir => {
            let mut i: usize = 0;
            assert(srows_view(out@) + bydir_rows(files@, 0, cv) =~= bydir_rows(files@, 0, cv));
            while i < files.len()
                invariant
                    i <= files@.len(),
                    cv == strs_v(collapsed@),
                    srows_view(out@) + bydir_rows(files@, i as int, cv) == bydir_rows(files@, 0, cv),
                decreases files@.len() - i,
            {
                let dir = parent_dir(files[i].path.as_str());
                let start = i;
                while i < files.len()
                    invariant
                        start <= i <= files@.len(),
                        start < files@.len(),
                        dir@ == parent_dir_spec(files@[start as int].path@),
                        forall|t: int| start <= t < i ==> parent_dir_spec((#[trigger] files@[t]).path@) == dir@,
                    ensures
                        i == files@.len() || parent_dir_spec(files@[i as int].path@) != dir@,
                    decreases files@.len() - i,
                {
                    let d = parent_dir(files[i].path.as_str());
                    if !str_eq(d.as_str(), dir.as_str()) {
                        break;
                    }
                    i = i + 1;
                }
                proof {
                    lemma_run_is(files@, start as int, i as int, dir@);
                }
                let ghost before = srows_view(out@);
                let folded = contains(collapsed, dir.as_str());
                out.push(SidebarRow::Dir(dir.clone()));
                assert(srows_view(out@) =~= before.push(SidebarRowV::Dir(dir@)));
                if folded {
                    let ghost mid = srows_view(out@);
                    let ghost dv = dir@;
                    out.push(SidebarRow::CollapsedFiles { dir, n: i - start });
                    assert(srows_view(out@) =~= mid.push(SidebarRowV::CollapsedFiles { dir: dv, n: (i - start) as usize }));
                } else {
                    assert(before.push(SidebarRowV::Dir(dir@)) =~= before.push(SidebarRowV::Dir(dir@))
                        + Seq::new(0, |j: int| SidebarRowV::File((start + j) as usize)));
                    let mut k: usize = start;
                    while k < i
                        invariant
                            start <= k <= i,
                            srows_view(out@) == before.push(SidebarRowV::Dir(dir@))
                                + Seq::new((k - start) as nat, |j: int| SidebarRowV::File((start + j) as usize)),
                        decreases i - k,
                    {
                        let ghost prev = srows_view(out@);
                        out.push(SidebarRow::File(k));
                        assert(srows_view(out@) =~= prev.push(SidebarRowV::File(k)));
                        k = k + 1;
                        assert(srows_view(out@) =~= before.push(SidebarRowV::Dir(dir@))
                            + Seq::new((k - start) as nat, |j: int| SidebarRowV::File((start + j) as usize)));
                    }
                }
                proof {
                    let n = same_dir_run(files@, start as int, dir@);
                    assert(n == i - start);
                    let body = if is_folded(cv, dir@) {
                        seq![SidebarRowV::CollapsedFiles { dir: dir@, n: n as usize }]
                    } else {
                        Seq::new(n, |k: int| SidebarRowV::File((start + k) as usize))
                    };
                    assert(srows_view(out@) =~= before + seq![SidebarRowV::Dir(dir@)] + body);
                    assert(bydir_rows(files@, start as int, cv)
                        == seq![SidebarRowV::Dir(dir@)] + body + bydir_rows(files@, i as int, cv));
                    assert(srows_view(out@) + bydir_rows(files@, i as int, cv) =~= before + bydir_rows(files@, start as int, cv));
                }
            }
            proof {
                assert(bydir_rows(files@, i as int, cv) =~= Seq::<SidebarRowV>::empty());
                assert(srows_view(out@) =~= srows_view(out@) + bydir_rows(files@, i as int, cv));
            }
            out
        }
    }
}

proof fn lemma_run_is(files: Seq<DiffFile>, a: int, j: int, dir: Seq<char>)
    requires
        0 <= a <= j <= files.len(),
        forall|t: int| a <= t < j ==> parent_dir_spec((#[trigger] files[t]).path@) == dir,
        j == files.len() || parent_dir_spec(files[j].path@) != dir,
    ensures
        same_dir_run(files, a, dir) == j - a,
    decreases j - a,
{
    if a < j {
        lemma_run_is(files, a + 1, j, dir);
    }
}

fn contains(collapsed: &[String], dir: &str) -> (r: bool)
    ensures
        r == is_folded(strs_v(collapsed@), dir@),
{
    let ghost cv = strs_v(collapsed@);
    let mut k: usize = 0;
    while k < collapsed.len()
        invariant
            k <= collapsed@.len(),
            cv == strs_v(collapsed@),
            forall|q: int| 0 <= q < k ==> #[trigger] cv[q] != dir@,
        decreases collapsed@.len() - k,
    {
        if str_eq(collapsed[k].as_str(), dir) {
            assert(cv[k as int] == dir@);
            return true;
        }
        k = k + 1;
    }
    false
}


/// The cursor stops among `rows`, in row order: file rows and folded
/// placeholders (directory lines are skipped).
pub open spec fn navs_of(rows: Seq<SidebarRowV>) -> Seq<NavV>
    decreases rows.len(),
{
    if rows.len() == 0 {
        Seq::empty()
    } else {
        let rest = navs_of(rows.drop_last());
        match rows.last() {
            SidebarRowV::File(i) => rest.push(NavV::File(i)),
            SidebarRowV::CollapsedFiles { dir, .. } => rest.push(NavV::Dir(dir)),
            SidebarRowV::Dir(_) => rest,
        }
    }
}

/// The navigable cursor sequence — visible files and collapsed placeholders,
/// in row order — that the sidebar's movement keys step across.
pub fn nav_sequence(rows: &[SidebarRow]) -> (r: Vec<Nav>)
    ensures
        navs_view(r@) == navs_of(srows_view(rows@)),
{
    let ghost rv = srows_view(rows@);
    let mut out: Vec<Nav> = Vec::new();
    let mut k: usize = 0;
    assert(rv.take(0) =~= Seq::<SidebarRowV>::empty());
    while k < rows.len()
        invariant
            k <= rows@.len(),
            rv == srows_view(rows@),
            navs_view(out@) == navs_of(rv.take(k as int)),
        decreases rows@.len() - k,
    {
        let ghost prev = navs_view(out@);
        assert(rv.take(k + 1).drop_last() =~= rv.take(k as int));
        assert(rv.take(k + 1).last() == rows@[k as int]@);
        match &rows[k] {
            SidebarRow::File(i) => {
                out.push(Nav::File(*i));
                assert(navs_view(out@) =~= prev.push(NavV::File(*i)));
            }
            SidebarRow::CollapsedFiles { dir, .. } => {
                let n = Nav::Dir(dir.clone());
                out.push(n);
                assert(navs_view(out@) =~= prev.push(NavV::Dir(dir@)));
            }
            SidebarRow::Dir(_) => {}
        }
        k = k + 1;
    }
    assert(rv.take(k as int) =~= rv);
    out
}

/// Whether nav stop `n` is the cursor of `st` (its selected placeholder, or
/// its selected file when no placeholder is selected).
pub open spec fn is_cursor(n: NavV, st: ViewState) -> bool {
    match (n, st.selected_dir) {
        (NavV::Dir(d), Some(sd)) => d == sd@,
        (NavV::File(i), None) => i == st.selected,
        _ => false,
    }
}

/// The first position in `seq` at or after `k` that is the cursor of `st`.
pub open spec fn cursor_from(seq: Seq<NavV>, st: ViewState, k: int) -> Option<int>
    decreases seq.len() - k,
{
    if k < 0 || k >= seq.len() {
        None
    } else if is_cursor(seq[k], st) {
        Some(k)
    } else {
        cursor_from(seq, st, k + 1)
    }
}

/// The cursor's position in the nav sequence (file index, or selected placeholder).
fn nav_pos(st: &ViewState, seq: &[Nav]) -> (r: Option<usize>)
    ensures
        match r {
            Some(k) => cursor_from(navs_view(seq@), *st, 0) == Some(k as int) && k < seq@.len(),
            None => cursor_from(navs_view(seq@), *st, 0) is None,
        },
{
    let ghost sv = navs_view(seq@);
    let mut k: usize = 0;
    while k < seq.len()
        invariant
            k <= seq@.len(),
            sv == navs_view(seq@),
            cursor_from(sv, *st, 0) == cursor_from(sv, *st, k as int),
        decreases seq@.len() - k,
    {
        let hit = match (&seq[k], &st.selected_dir) {
            (Nav::Dir(d), Some(sd)) => str_eq(d.as_str(), sd.as_str()),
            (Nav::File(i), None) => *i == st.selected,
            _ => false,
        };
        assert(hit == is_cursor(sv[k as int], *st));
        if hit {
            return Some(k);
        }
        k = k + 1;
    }
    None
}

/// The state `st` after moving the cursor onto stop `n`: a file selects it
/// and clears any placeholder; a placeholder is selected with the current
/// file kept as its nearby fallback.
pub open spec fn after_nav(st: ViewState, n: NavV, fin: ViewState) -> bool {
    &&& fin.viewed == st.viewed
    &&& fin.scroll == st.scroll
    &&& fin.h_scroll == st.h_scroll
    &&& fin.wrap == st.wrap
    &&& match n {
        NavV::File(i) => fin.selected == i && fin.selected_dir is None,
        NavV::Dir(d) => fin.selected == st.selected && (fin.selected_dir matches Some(sd) && sd@ == d),
    }
}

/// Point the cursor at a nav stop.
fn apply_nav(st: &mut ViewState, n: &Nav)
    ensures
        after_nav(*old(st), n@, *final(st)),
        final(st).reveal_selected == old(st).reveal_selected,
{
    match n {
        Nav::File(i) => st.select_file(*i),
        Nav::Dir(d) => {
            let near = st.selected;
            st.select_dir(d.clone(), near);
        }
    }
}

/// `v` clamped into `[lo, hi]`.
pub open spec fn clamp_int(v: int, lo: int, hi: int) -> int {
    if v < lo { lo } else if v > hi { hi } else { v }
}

/// Step the selection by `delta` through the nav sequence, clamped to its
/// ends (from the first stop when the cursor is on none of them), and request
/// a reveal. Returns the new cursor stop (`None` if the sequence is empty).
pub fn step(st: &mut ViewState, seq: &[Nav], delta: isize) -> (r: Option<Nav>)
    requires
        seq@.len() <= isize::MAX,
        seq@.len() > 0 ==> (match cursor_from(navs_view(seq@), *old(st), 0) { Some(k) => k, None => 0 }) + delta
            <= isize::MAX,
    ensures
        seq@.len() == 0 ==> r is None && *final(st) == *old(st),
        seq@.len() > 0 ==> {
            let cur = match cursor_from(navs_view(seq@), *old(st), 0) { Some(k) => k, None => 0 };
            let next = clamp_int(cur + delta, 0, seq@.len() - 1);
            &&& (r matches Some(n) && n@ == seq@[next]@)
            &&& after_nav(*old(st), seq@[next]@, *final(st))
            &&& final(st).reveal_selected
        },
{
    if seq.len() == 0 {
        return None;
    }
    let cur: isize = match nav_pos(st, seq) {
        Some(k) => k as isize,
        None => 0,
    };
    let last = (seq.len() - 1) as isize;
    let v = cur + delta;
    let next: usize = if v < 0 { 0 } else if v > last { last as usize } else { v as usize };
    apply_nav(st, &seq[next]);
    st.reveal_selected = true;
    Some(seq[next].duplicate())
}

/// The first row at or after `k` that is the file row of `idx`.
pub open spec fn file_row_from(rows: Seq<SidebarRowV>, idx: usize, k: int) -> Option<int>
    decreases rows.len() - k,
{
    if k < 0 || k >= rows.len() {
        None
    } else if row_file(rows[k]) == Some(idx) {
        Some(k)
    } else {
        file_row_from(rows, idx, k + 1)
    }
}

/// The first row at or after `k` that is the placeholder of folded `dir`.
pub open spec fn dir_row_from(rows: Seq<SidebarRowV>, dir: Seq<char>, k: int) -> Option<int>
    decreases rows.len() - k,
{
    if k < 0 || k >= rows.len() {
        None
    } else if rows[k] matches SidebarRowV::CollapsedFiles { dir: d, .. } && d == dir {
        Some(k)
    } else {
        dir_row_from(rows, dir, k + 1)
    }
}

/// An optional row index as an integer option.
pub open spec fn opt_int(r: Option<usize>) -> Option<int> {
    match r {
        Some(k) => Some(k as int),
        None => None,
    }
}

/// The row index of file `idx`, if it is present in `rows`.
pub fn row_of_file(rows: &[SidebarRow], idx: usize) -> (r: Option<usize>)
    ensures
        opt_int(r) == file_row_from(srows_view(rows@), idx, 0),
{
    let ghost rv = srows_view(rows@);
    let mut k: usize = 0;
    while k < rows.len()
        invariant
            k <= rows@.len(),
            rv == srows_view(rows@),
            file_row_from(rv, idx, 0) == file_row_from(rv, idx, k as int),
        decreases rows@.len() - k,
    {
        if rows[k].file() == Some(idx) {
            return Some(k);
        }
        k = k + 1;
    }
    None
}

/// The row of the current selection: the placeholder row of the selected
/// folded directory, or else the selected file's row.
pub open spec fn selection_row(rows: Seq<SidebarRowV>, st: ViewState) -> Option<int> {
    match st.selected_dir {
        Some(dir) => dir_row_from(rows, dir@, 0),
        None => file_row_from(rows, st.selected, 0),
    }
}

/// The row index of the current selection — a file row, or the placeholder
/// row of the selected folded directory.
pub fn row_of_selection(rows: &[SidebarRow], st: &ViewState) -> (r: Option<usize>)
    ensures
        opt_int(r) == selection_row(srows_view(rows@), *st),
{
    match &st.selected_dir {
        Some(dir) => {
            let ghost rv = srows_view(rows@);
            assert(selection_row(rv, *st) == dir_row_from(rv, dir@, 0));
            let mut k: usize = 0;
            while k < rows.len()
                invariant
                    k <= rows@.len(),
                    rv == srows_view(rows@),
                    selection_row(rv, *st) == dir_row_from(rv, dir@, 0),
                    dir_row_from(rv, dir@, 0) == dir_row_from(rv, dir@, k as int),
                decreases rows@.len() - k,
            {
                match &rows[k] {
                    SidebarRow::CollapsedFiles { dir: d, .. } => {
                        if str_eq(d.as_str(), dir.as_str()) {
                            assert(rv[k as int] matches SidebarRowV::CollapsedFiles { dir: dd, .. } && dd == dir@);
                            assert(dir_row_from(rv, dir@, k as int) == Some(k as int));
                            return Some(k);
                        }
                    }
                    _ => {}
                }
                k = k + 1;
            }
            None
        }
        None => row_of_file(rows, st.selected),
    }
}


/// The abstract value of a [`RowHit`].
pub enum RowHitV {
    File(usize),
    Dir(Seq<char>),
}

/// The view of an optional hit.
pub open spec fn hit_view(h: Option<RowHit>) -> Option<RowHitV> {
    match h {
        Some(RowHit::File(i)) => Some(RowHitV::File(i)),
        Some(RowHit::Dir(d)) => Some(RowHitV::Dir(d@)),
        None => None,
    }
}

/// What a click at `(x, y)` hits: nothing outside `area` or below the
/// `visible` rows of the window starting at row `top` (or past the last row);
/// a file row gives its file, a directory line or folded placeholder its
/// directory.
pub open spec fn hit_spec(area: Rect, top: usize, visible: usize, x: u16, y: u16, rows: Seq<SidebarRowV>) -> Option<RowHitV> {
    if x < area.x || x >= area.x + area.width || y < area.y || y >= area.y + area.height {
        None
    } else {
        let row = y - area.y;
        if row >= visible || top + row >= rows.len() {
            None
        } else {
            match rows[top + row] {
                SidebarRowV::File(i) => Some(RowHitV::File(i)),
                SidebarRowV::Dir(d) => Some(RowHitV::Dir(d)),
                SidebarRowV::CollapsedFiles { dir, .. } => Some(RowHitV::Dir(dir)),
            }
        }
    }
}

/// Map a click at `(x, y)` to the sidebar row it lands on, within the visible
/// window (see [`hit_spec`]).
pub fn row_at(area: Rect, top: usize, visible: usize, x: u16, y: u16, rows: &[SidebarRow]) -> (r: Option<RowHit>)
    requires
        area.x + area.width <= u16::MAX,
        area.y + area.height <= u16::MAX,
        top + visible <= usize::MAX,
    ensures
        hit_view(r) == hit_spec(area, top, visible, x, y, srows_view(rows@)),
{
    if x < area.x || x >= area.x + area.width || y < area.y || y >= area.y + area.height {
        return None;
    }
    let row = (y - area.y) as usize;
    if row >= visible {
        return None;
    }
    if top + row >= rows.len() {
        return None;
    }
    match &rows[top + row] {
        SidebarRow::File(i) => Some(RowHit::File(*i)),
        SidebarRow::Dir(d) => Some(RowHit::Dir(d.clone())),
        SidebarRow::CollapsedFiles { dir, .. } => Some(RowHit::Dir(dir.clone())),
    }
}

/// Map a click to a sidebar *file* index, if it falls on a file row (a
/// directory line or folded placeholder yields `None`).
pub fn file_at_row(area: Rect, top: usize, visible: usize, x: u16, y: u16, rows: &[SidebarRow]) -> (r: Option<usize>)
    requires
        area.x + area.width <= u16::MAX,
        area.y + area.height <= u16::MAX,
        top + visible <= usize::MAX,
    ensures
        r == (match hit_spec(area, top, visible, x, y, srows_view(rows@)) {
            Some(RowHitV::File(i)) => Some(i),
            _ => None,
        }),
{
    match row_at(area, top, visible, x, y, rows) {
        Some(RowHit::File(i)) => Some(i),
        Some(RowHit::Dir(_)) => None,
        None => None,
    }
}

/// The file indices among `rows`, in order.
pub open spec fn files_in(rows: Seq<SidebarRowV>) -> Seq<usize>
    decreases rows.len(),
{
    if rows.len() == 0 {
        Seq::empty()
    } else {
        match row_file(rows.last()) {
            Some(i) => files_in(rows.drop_last()).push(i),
            None => files_in(rows.drop_last()),
        }
    }
}

/// The rows of the window `[top, top + visible)`, clipped to `rows`.
pub open spec fn window_rows(rows: Seq<SidebarRowV>, top: int, visible: int) -> Seq<SidebarRowV> {
    let a = if top <= rows.len() { top } else { rows.len() as int };
    let b = if top + visible <= rows.len() { top + visible } else { rows.len() as int };
    rows.subrange(a, b)
}

/// The file indices among the rows in the window `[top, top + visible)`, in
/// order — the units the jump digits spread across.
fn visible_files(rows: &[SidebarRow], top: usize, visible: usize) -> (r: Vec<usize>)
    requires
        top + visible <= usize::MAX,
    ensures
        r@ == files_in(window_rows(srows_view(rows@), top as int, visible as int)),
{
    let ghost rv = srows_view(rows@);
    let a = if top <= rows.len() { top } else { rows.len() };
    let b = if top + visible <= rows.len() { top + visible } else { rows.len() };
    let mut out: Vec<usize> = Vec::new();
    let mut k: usize = a;
    assert(rv.subrange(a as int, a as int) =~= Seq::<SidebarRowV>::empty());
    while k < b
        invariant
            a <= k <= b <= rows@.len(),
            rv == srows_view(rows@),
            out@ == files_in(rv.subrange(a as int, k as int)),
        decreases b - k,
    {
        assert(rv.subrange(a as int, k + 1).drop_last() =~= rv.subrange(a as int, k as int));
        assert(rv.subrange(a as int, k + 1).last() == rows@[k as int]@);
        match rows[k].file() {
            Some(i) => out.push(i),
            None => {}
        }
        k = k + 1;
    }
    out
}

/// The row offset digit `d` (1–9) maps to within `vis` visible files: small
/// sets map 1:1 (clamped to the last), larger sets spread the nine digits
/// evenly so that 1 is the first and 9 the last.
pub open spec fn digit_offset_spec(d: int, vis: int) -> int {
    if vis <= 1 {
        0
    } else if vis <= 9 {
        if d - 1 <= vis - 1 { d - 1 } else { vis - 1 }
    } else {
        ((d - 1) * (vis - 1) + 4) / 8
    }
}

/// Map a digit (1–9) to a row offset within `vis` visible files
/// (see [`digit_offset_spec`]).
pub fn digit_to_offset(d: usize, vis: usize) -> (r: usize)
    requires
        1 <= d <= 9,
    ensures
        r == digit_offset_spec(d as int, vis as int),
        vis >= 1 ==> r < vis,
{
    if vis <= 1 {
        0
    } else if vis <= 9 {
        if d - 1 <= vis - 1 { d - 1 } else { vis - 1 }
    } else {
        let a: u128 = (d - 1) as u128;
        let b: u128 = (vis - 1) as u128;
        assert(a * b <= 8 * b) by (nonlinear_arith)
            requires
                a <= 8,
        ;
        let num: u128 = a * b + 4;
        proof {
            assert((d - 1) * (vis - 1) + 4 < 8 * vis) by (nonlinear_arith)
                requires
                    1 <= d <= 9,
                    vis > 9,
            ;
        }
        (num / 8) as usize
    }
}

/// The digit whose mapping lands on `off` (for rendering sidebar badges):
/// the smallest of 1–9 that maps there, if any.
pub fn offset_to_digit(off: usize, vis: usize) -> (r: Option<usize>)
    ensures
        r matches Some(d) ==> 1 <= d <= 9 && digit_offset_spec(d as int, vis as int) == off
            && forall|e: int| 1 <= e < d ==> digit_offset_spec(e, vis as int) != off,
        r is None ==> forall|e: int| 1 <= e <= 9 ==> digit_offset_spec(e, vis as int) != off,
{
    let mut d: usize = 1;
    while d <= 9
        invariant
            1 <= d <= 10,
            forall|e: int| 1 <= e < d ==> digit_offset_spec(e, vis as int) != off,
        decreases 10 - d,
    {
        if digit_to_offset(d, vis) == off {
            return Some(d);
        }
        d = d + 1;
    }
    None
}

/// The file a sparse digit (1–9) maps to across the visible *files* in the
/// window: the file at [`digit_offset_spec`] (clamped to the last). `None`
/// when no files are visible.
pub fn digit_target(d: usize, top: usize, visible: usize, rows: &[SidebarRow]) -> (r: Option<usize>)
    requires
        1 <= d <= 9,
        top + visible <= usize::MAX,
    ensures
        ({
            let files = files_in(window_rows(srows_view(rows@), top as int, visible as int));
            if files.len() == 0 {
                r is None
            } else {
                let off = digit_offset_spec(d as int, files.len() as int);
                r == Some(files[if off <= files.len() - 1 { off } else { files.len() - 1 }])
            }
        }),
{
    let files = visible_files(rows, top, visible);
    if files.len() == 0 {
        return None;
    }
    let off = digit_to_offset(d, files.len());
    let k = if off <= files.len() - 1 { off } else { files.len() - 1 };
    Some(files[k])
}

/// The window top after scrolling by `delta` rows: clamped to
/// `[0, n_rows - height]` (height at least 1; 0 when everything fits).
pub open spec fn scroll_spec(top: int, height: int, n_rows: int, delta: int) -> int {
    let h = if height >= 1 { height } else { 1 };
    let max_top = if n_rows >= h { n_rows - h } else { 0 };
    clamp_int(top + delta, 0, max_top)
}

/// Scroll the row window by `delta`, clamped, without moving the selection.
/// Returns the new window top (a row index).
pub fn scroll(top: usize, height: usize, n_rows: usize, delta: isize) -> (r: usize)
    requires
        top <= isize::MAX,
        n_rows <= isize::MAX,
        isize::MIN <= top + delta <= isize::MAX,
    ensures
        r == scroll_spec(top as int, height as int, n_rows as int, delta as int),
{
    let h = if height >= 1 { height } else { 1 };
    let max_top = (if n_rows >= h { n_rows - h } else { 0 }) as isize;
    let v = top as isize + delta;
    if v < 0 {
        0
    } else if v > max_top {
        max_top as usize
    } else {
        v as usize
    }
}

/// The window `(top, visible)` for a viewport of `height` rows over `rows`:
/// when a reveal is requested, the top first moves just enough to show the
/// selection's row; then the top is clamped so the window stays full, and at
/// least one row is visible.
pub open spec fn window_spec(reveal: bool, sel: Option<int>, top: int, height: int, n: int) -> (int, int) {
    let h = if height >= 1 { height } else { 1 };
    let t0 = if reveal && sel is Some {
        let s = sel->0;
        if s < top { s } else if s >= top + h { s + 1 - h } else { top }
    } else {
        top
    };
    let cap = if n >= h { n - h } else { 0 };
    let t = if t0 <= cap { t0 } else { cap };
    let left = if n >= t { n - t } else { 0 };
    let v0 = if h <= left { h } else { left };
    (t, if v0 >= 1 { v0 } else { 1 })
}

/// Recompute the window `(top, visible)` over `rows` for a viewport of
/// `height` rows (see [`window_spec`]); a pending reveal of the selection is
/// consumed, so a manual scroll that leaves the selection put is preserved.
pub fn window(st: &mut ViewState, top: usize, height: usize, rows: &[SidebarRow]) -> (r: (usize, usize))
    ensures
        (r.0 as int, r.1 as int) == window_spec(old(st).reveal_selected,
            selection_row(srows_view(rows@), *old(st)), top as int, height as int, rows@.len() as int),
        !final(st).reveal_selected,
        final(st).viewed == old(st).viewed,
        final(st).selected == old(st).selected,
        final(st).selected_dir == old(st).selected_dir,
        final(st).scroll == old(st).scroll,
        final(st).h_scroll == old(st).h_scroll,
        final(st).wrap == old(st).wrap,
{
    let h = if height >= 1 { height } else { 1 };
    let n = rows.len();
    let mut new_top = top;
    if st.reveal_selected {
        match row_of_selection(rows, st) {
            Some(sel_row) => {
                if sel_row < new_top {
                    new_top = sel_row;
                } else if sel_row - new_top >= h {
                    new_top = sel_row - h + 1;
                }
            }
            None => {}
        }
        st.reveal_selected = false;
    }
    let cap = if n >= h { n - h } else { 0 };
    if new_top > cap {
        new_top = cap;
    }
    let left = if n >= new_top { n - new_top } else { 0 };
    let v0 = if h <= left { h } else { left };
    let visible = if v0 >= 1 { v0 } else { 1 };
    (new_top, visible)
}

/// The jump digits span the visible files: digit 1 is the first, digit 9
/// the last, every digit lands within the set, and a higher digit never lands
/// earlier.
pub proof fn digit_span_law(vis: int, d: int, e: int)
    requires
        vis >= 1,
        1 <= d <= e <= 9,
    ensures
        digit_offset_spec(1, vis) == 0,
        digit_offset_spec(9, vis) == vis - 1,
        0 <= digit_offset_spec(d, vis) < vis,
        digit_offset_spec(d, vis) <= digit_offset_spec(e, vis),
{
    if vis > 9 {
        assert(((9 - 1) * (vis - 1) + 4) / 8 == vis - 1) by (nonlinear_arith)
            requires
                vis > 9,
        ;
        assert(0 <= ((d - 1) * (vis - 1) + 4) / 8 < vis) by (nonlinear_arith)
            requires
                vis > 9,
                1 <= d <= 9,
        ;
        assert(((d - 1) * (vis - 1) + 4) / 8 <= ((e - 1) * (vis - 1) + 4) / 8) by (nonlinear_arith)
            requires
                vis > 9,
                1 <= d <= e <= 9,
        ;
    }
}

/// The window reveals what it is asked to: with a reveal requested for a
/// selection on row `sel` of `n` rows, the recomputed window holds that row;
/// and any window is at least one row and, over a non-empty list, ends
/// within it.
pub proof fn window_reveal_law(reveal: bool, sel: Option<int>, top: int, height: int, n: int)
    requires
        top >= 0,
        n >= 0,
        sel matches Some(s) ==> 0 <= s < n,
    ensures
        ({
            let (t, v) = window_spec(reveal, sel, top, height, n);
            &&& 0 <= t
            &&& v >= 1
            &&& n >= 1 ==> t + v <= n
            &&& (reveal && sel is Some) ==> t <= sel->0 < t + v
        }),
{
}

/// The files from `i` on whose parent directory is not folded, in order.
pub open spec fn unfolded_from(files: Seq<DiffFile>, collapsed: Seq<Seq<char>>, i: int) -> Seq<usize>
    decreases files.len() - i,
{
    if i < 0 || i >= files.len() {
        Seq::empty()
    } else if is_folded(collapsed, parent_dir_spec(files[i].path@)) {
        unfolded_from(files, collapsed, i + 1)
    } else {
        seq![i as usize] + unfolded_from(files, collapsed, i + 1)
    }
}

/// The indices `i, i + 1, .., i + n - 1`.
pub open spec fn index_block(i: int, n: nat) -> Seq<usize> {
    Seq::new(n, |k: int| (i + k) as usize)
}

proof fn lemma_files_in_concat(a: Seq<SidebarRowV>, b: Seq<SidebarRowV>)
    ensures
        files_in(a + b) == files_in(a) + files_in(b),
    decreases b.len(),
{
    if b.len() > 0 {
        lemma_files_in_concat(a, b.drop_last());
        assert((a + b).drop_last() =~= a + b.drop_last());
        assert((a + b).last() == b.last());
    } else {
        assert(a + b =~= a);
        assert(files_in(b) =~= Seq::<usize>::empty());
    }
}

proof fn lemma_files_in_block(i: int, n: nat)
    ensures
        files_in(Seq::new(n, |k: int| SidebarRowV::File((i + k) as usize))) == index_block(i, n),
    decreases n,
{
    let rs = Seq::new(n, |k: int| SidebarRowV::File((i + k) as usize));
    if n > 0 {
        lemma_files_in_block(i, (n - 1) as nat);
        assert(rs.drop_last() =~= Seq::new((n - 1) as nat, |k: int| SidebarRowV::File((i + k) as usize)));
        assert(index_block(i, n) =~= index_block(i, (n - 1) as nat).push((i + n - 1) as usize));
    } else {
        assert(index_block(i, n) =~= Seq::<usize>::empty());
    }
}

proof fn lemma_run_unfolded(files: Seq<DiffFile>, collapsed: Seq<Seq<char>>, i: int, dir: Seq<char>)
    requires
        0 <= i,
    ensures
        unfolded_from(files, collapsed, i)
            == (if is_folded(collapsed, dir) { Seq::empty() } else { index_block(i, same_dir_run(files, i, dir)) })
                + unfolded_from(files, collapsed, i + same_dir_run(files, i, dir)),
    decreases files.len() - i,
{
    let m = same_dir_run(files, i, dir);
    if 0 <= i < files.len() && parent_dir_spec(files[i].path@) == dir {
        lemma_run_unfolded(files, collapsed, i + 1, dir);
        assert(m == 1 + same_dir_run(files, i + 1, dir));
        assert(i + m == i + 1 + same_dir_run(files, i + 1, dir));
        if !is_folded(collapsed, dir) {
            assert(index_block(i, m) =~= seq![i as usize] + index_block(i + 1, same_dir_run(files, i + 1, dir)));
        }
    } else {
        assert(m == 0);
        assert(index_block(i, 0) =~= Seq::<usize>::empty());
    }
}

proof fn lemma_bydir_files(files: Seq<DiffFile>, collapsed: Seq<Seq<char>>, i: int)
    requires
        0 <= i,
    ensures
        files_in(bydir_rows(files, i, collapsed)) == unfolded_from(files, collapsed, i),
    decreases files.len() - i,
{
    if i < files.len() {
        let dir = parent_dir_spec(files[i].path@);
        let n = same_dir_run(files, i, dir);
        lemma_same_dir_run_pos(files, i, dir);
        lemma_bydir_files(files, collapsed, i + n);
        lemma_run_unfolded(files, collapsed, i, dir);
        let head = seq![SidebarRowV::Dir(dir)];
        let body = if is_folded(collapsed, dir) {
            seq![SidebarRowV::CollapsedFiles { dir: dir, n: n as usize }]
        } else {
            Seq::new(n, |k: int| SidebarRowV::File((i + k) as usize))
        };
        let rest = bydir_rows(files, i + n, collapsed);
        assert(bydir_rows(files, i, collapsed) == head + body + rest);
        lemma_files_in_concat(head + body, rest);
        lemma_files_in_concat(head, body);
        assert(files_in(head) =~= Seq::<usize>::empty()) by {
            reveal_with_fuel(files_in, 2);
            assert(head.drop_last() =~= Seq::<SidebarRowV>::empty());
            assert(row_file(head.last()) is None);
        }
        if is_folded(collapsed, dir) {
            assert(files_in(body) =~= Seq::<usize>::empty()) by {
                reveal_with_fuel(files_in, 2);
                assert(body.drop_last() =~= Seq::<SidebarRowV>::empty());
                assert(row_file(body.last()) is None);
            }
        } else {
            lemma_files_in_block(i, n);
        }
        assert(files_in(head + body) =~= files_in(head) + files_in(body));
    } else {
        assert(files_in(bydir_rows(files, i, collapsed)) =~= Seq::<usize>::empty());
    }
}

/// Every file has exactly one file row, in file order: the flat list shows
/// every file; the grouped list shows every file whose directory is not
/// folded (a folded directory's files only count toward its placeholder).
pub proof fn sidebar_files_law(files: Seq<DiffFile>, collapsed: Seq<Seq<char>>)
    ensures
        files_in(rows_spec(files, Grouping::Flat, collapsed)) == index_block(0, files.len()),
        files_in(rows_spec(files, Grouping::ByDir, collapsed)) == unfolded_from(files, collapsed, 0),
{
    lemma_files_in_block(0, files.len());
    assert(Seq::new(files.len(), |k: int| SidebarRowV::File(k as usize))
        =~= Seq::new(files.len(), |k: int| SidebarRowV::File((0 + k) as usize)));
    lemma_bydir_files(files, collapsed, 0);
}

} // verus!
