//! The single row-planning layer: flatten a changeset into a flat list of
//! rows. Windowing, scrolling, and navigation all derive from this structure.
//!
//! One parametric [`Plan`] serves both layouts: the chrome rows (file headers,
//! collapsed/pending placeholders, gap markers, spacers) are identical, and
//! only the hunk body differs — a stacked [`Row::Line`] in unified layout, or
//! a side-by-side [`Row::Pair`] in split layout.

use vstd::prelude::*;
use crate::model::{Changeset, DiffFile, Hunk, HunkV, Line, LineKind, LineV, LayoutMode, lines_view,
    hunks_view, parent_dir, parent_dir_spec};
use crate::text::str_eq;

verus! {

/// One side of a split (side-by-side) row.
pub struct SplitCell {
    pub file: usize,
    pub side_new: bool,
    pub lineno: Option<u32>,
    pub kind: LineKind,
    pub text: String,
    pub emphasis: Option<(u32, u32)>,
}

/// The abstract value of a [`SplitCell`].
pub struct CellV {
    pub file: usize,
    pub side_new: bool,
    pub lineno: Option<u32>,
    pub kind: LineKind,
    pub text: Seq<char>,
    pub emphasis: Option<(u32, u32)>,
}

impl View for SplitCell {
    type V = CellV;

    open spec fn view(&self) -> CellV {
        CellV {
            file: self.file,
            side_new: self.side_new,
            lineno: self.lineno,
            kind: self.kind,
            text: self.text@,
            emphasis: self.emphasis,
        }
    }
}

/// The view of an optional cell.
pub open spec fn cell_opt_view(c: Option<SplitCell>) -> Option<CellV> {
    match c {
        Some(c) => Some(c@),
        None => None,
    }
}

/// One renderable row in the review stream.
pub enum Row {
    /// A file header; carries the index into `Changeset::files`.
    FileHeader(usize),
    /// A collapsed (reviewed) file body placeholder; carries its hunk count.
    Collapsed(usize),
    /// A folded directory's placeholder: stands in for its `n` (hidden)
    /// files, `reviewed` of which are reviewed.
    CollapsedDir { dir: String, n: usize, reviewed: usize },
    /// An undiffed file's body placeholder, shown while its diff streams in.
    Pending,
    /// A commit-message banner line, above the diff of a commit view.
    Banner(String),
    /// A hunk boundary; carries the previous hunk's last new-side line number
    /// (used to align the gap marker under the gutter numbers).
    HunkHeader(u32),
    /// A stacked (unified) diff line; `file` indexes `Changeset::files`.
    Line {
        file: usize,
        kind: LineKind,
        old: Option<u32>,
        new: Option<u32>,
        text: String,
        emphasis: Option<(u32, u32)>,
    },
    /// A split row: a deletion on the left paired with an insertion on the
    /// right (either side may be blank), or one context line on both sides.
    Pair(Option<SplitCell>, Option<SplitCell>),
    /// Blank separator between files.
    Spacer,
}

/// The abstract value of a [`Row`].
pub enum RowV {
    FileHeader(usize),
    Collapsed(usize),
    CollapsedDir { dir: Seq<char>, n: usize, reviewed: usize },
    Pending,
    Banner(Seq<char>),
    HunkHeader(u32),
    Line {
        file: usize,
        kind: LineKind,
        old: Option<u32>,
        new: Option<u32>,
        text: Seq<char>,
        emphasis: Option<(u32, u32)>,
    },
    Pair(Option<CellV>, Option<CellV>),
    Spacer,
}

impl View for Row {
    type V = RowV;

    open spec fn view(&self) -> RowV {
        match self {
            Row::FileHeader(i) => RowV::FileHeader(*i),
            Row::Collapsed(n) => RowV::Collapsed(*n),
            Row::CollapsedDir { dir, n, reviewed } => RowV::CollapsedDir { dir: dir@, n: *n, reviewed: *reviewed },
            Row::Pending => RowV::Pending,
            Row::Banner(s) => RowV::Banner(s@),
            Row::HunkHeader(n) => RowV::HunkHeader(*n),
            Row::Line { file, kind, old, new, text, emphasis } => RowV::Line {
                file: *file,
                kind: *kind,
                old: *old,
                new: *new,
                text: text@,
                emphasis: *emphasis,
            },
            Row::Pair(l, r) => RowV::Pair(cell_opt_view(*l), cell_opt_view(*r)),
            Row::Spacer => RowV::Spacer,
        }
    }
}

/// The views of a sequence of rows.
pub open spec fn rows_view(rs: Seq<Row>) -> Seq<RowV> {
    rs.map_values(|r: Row| r@)
}

/// The flattened plan plus the indices needed for navigation.
pub struct Plan {
    pub rows: Vec<Row>,
    /// Row of each *visible* file's header, parallel to `visible_files`.
    pub file_starts: Vec<usize>,
    /// `Changeset::files` index of each visible file, in stream order.
    pub visible_files: Vec<usize>,
    /// Rows where each hunk begins, in stream order.
    pub hunk_starts: Vec<usize>,
    /// Widest rendered row in columns (one column's cell in split layout),
    /// for clamping horizontal scroll.
    pub content_w: usize,
    /// The layout these rows were built for.
    pub layout: LayoutMode,
}

/// Columns the line-number gutter and sign prefix occupy before the text.
pub const GUTTER_W: usize = 6;


/// A diff line as a stacked row of file `fi`.
pub open spec fn stack_row(fi: usize, l: LineV) -> RowV {
    RowV::Line { file: fi, kind: l.kind, old: l.old_lineno, new: l.new_lineno, text: l.text, emphasis: l.emphasis }
}

/// A hunk's lines as stacked rows of file `fi`.
pub open spec fn stack_rows(fi: usize, ls: Seq<LineV>) -> Seq<RowV> {
    ls.map_values(|l: LineV| stack_row(fi, l))
}

/// A removed line as the left cell of a split row.
pub open spec fn left_cell(fi: usize, l: LineV) -> CellV {
    CellV { file: fi, side_new: false, lineno: l.old_lineno, kind: LineKind::Removed, text: l.text, emphasis: l.emphasis }
}

/// An added line as the right cell of a split row.
pub open spec fn right_cell(fi: usize, l: LineV) -> CellV {
    CellV { file: fi, side_new: true, lineno: l.new_lineno, kind: LineKind::Added, text: l.text, emphasis: l.emphasis }
}

/// A context line shown on both sides of a split row (no emphasis).
pub open spec fn ctx_pair(fi: usize, l: LineV) -> RowV {
    RowV::Pair(
        Some(CellV { file: fi, side_new: false, lineno: l.old_lineno, kind: LineKind::Context, text: l.text, emphasis: None }),
        Some(CellV { file: fi, side_new: true, lineno: l.new_lineno, kind: LineKind::Context, text: l.text, emphasis: None }),
    )
}

/// Pending removals paired row-for-row with pending insertions: as many rows
/// as the longer side, the shorter side blank past its end.
pub open spec fn flush_rows(fi: usize, rem: Seq<LineV>, add: Seq<LineV>) -> Seq<RowV> {
    Seq::new(if rem.len() >= add.len() { rem.len() } else { add.len() }, |k: int| RowV::Pair(
        if k < rem.len() { Some(left_cell(fi, rem[k])) } else { None },
        if k < add.len() { Some(right_cell(fi, add[k])) } else { None },
    ))
}

/// Split rows for lines `i..` of a hunk, with removals `rem` and insertions
/// `add` still pending: a context line flushes the pending pairs and then
/// shows on both sides; the end of the hunk flushes.
pub open spec fn split_rows_from(fi: usize, ls: Seq<LineV>, i: int, rem: Seq<LineV>, add: Seq<LineV>) -> Seq<RowV>
    decreases ls.len() - i,
{
    if i < 0 || i >= ls.len() {
        flush_rows(fi, rem, add)
    } else if ls[i].kind == LineKind::Context {
        flush_rows(fi, rem, add) + seq![ctx_pair(fi, ls[i])] + split_rows_from(fi, ls, i + 1, Seq::empty(), Seq::empty())
    } else if ls[i].kind == LineKind::Removed {
        split_rows_from(fi, ls, i + 1, rem.push(ls[i]), add)
    } else {
        split_rows_from(fi, ls, i + 1, rem, add.push(ls[i]))
    }
}

/// A hunk's lines as split rows of file `fi`.
pub open spec fn split_rows(fi: usize, ls: Seq<LineV>) -> Seq<RowV> {
    split_rows_from(fi, ls, 0, Seq::empty(), Seq::empty())
}

/// The widest rendered line of `ls`: gutter plus text, in chars.
pub open spec fn max_w(ls: Seq<LineV>) -> nat
    decreases ls.len(),
{
    if ls.len() == 0 {
        0
    } else {
        let w = (GUTTER_W + ls.last().text.len()) as nat;
        let m = max_w(ls.drop_last());
        if m >= w { m } else { w }
    }
}

fn emit_pair_rows(rows: &mut Vec<Row>, fi: usize, lines: &Vec<Line>, rem: &Vec<usize>, add: &Vec<usize>)
    requires
        forall|k: int| 0 <= k < rem@.len() ==> (#[trigger] rem@[k]) < lines@.len(),
        forall|k: int| 0 <= k < add@.len() ==> (#[trigger] add@[k]) < lines@.len(),
    ensures
        rows_view(final(rows)@) == rows_view(old(rows)@) + flush_rows(fi,
            rem@.map_values(|x: usize| lines@[x as int]@), add@.map_values(|x: usize| lines@[x as int]@)),
{
    let ghost rv = rem@.map_values(|x: usize| lines@[x as int]@);
    let ghost av = add@.map_values(|x: usize| lines@[x as int]@);
    let ghost start = rows_view(rows@);
    let n = if rem.len() >= add.len() { rem.len() } else { add.len() };
    let mut i: usize = 0;
    while i < n
        invariant
            i <= n,
            n == (if rem@.len() >= add@.len() { rem@.len() } else { add@.len() }),
            forall|k: int| 0 <= k < rem@.len() ==> (#[trigger] rem@[k]) < lines@.len(),
            forall|k: int| 0 <= k < add@.len() ==> (#[trigger] add@[k]) < lines@.len(),
            rv == rem@.map_values(|x: usize| lines@[x as int]@),
            av == add@.map_values(|x: usize| lines@[x as int]@),
            rows_view(rows@) == start + flush_rows(fi, rv, av).take(i as int),
        decreases n - i,
    {
        let left = if i < rem.len() {
            let l = &lines[rem[i]];
            Some(SplitCell { file: fi, side_new: false, lineno: l.old_lineno, kind: LineKind::Removed, text: l.text.clone(), emphasis: l.emphasis })
        } else {
            None
        };
        let right = if i < add.len() {
            let l = &lines[add[i]];
            Some(SplitCell { file: fi, side_new: true, lineno: l.new_lineno, kind: LineKind::Added, text: l.text.clone(), emphasis: l.emphasis })
        } else {
            None
        };
        let row = Row::Pair(left, right);
        let ghost prev = rows_view(rows@);
        rows.push(row);
        proof {
            assert(rows_view(rows@) =~= prev.push(row@));
            assert(row@ == flush_rows(fi, rv, av)[i as int]);
            assert(flush_rows(fi, rv, av).take(i + 1) =~= flush_rows(fi, rv, av).take(i as int).push(row@));
        }
        i = i + 1;
    }
    assert(flush_rows(fi, rv, av).take(n as int) =~= flush_rows(fi, rv, av));
}

/// Emit a hunk's lines as split `Pair` rows: removals paired with insertions
/// row-for-row, context lines aligned on both sides (see [`split_rows`]).
fn emit_split_body(rows: &mut Vec<Row>, fi: usize, lines: &Vec<Line>)
    ensures
        rows_view(final(rows)@) == rows_view(old(rows)@) + split_rows(fi, lines_view(lines@)),
{
    let ghost lv = lines_view(lines@);
    let ghost start = rows_view(rows@);
    let mut rem: Vec<usize> = Vec::new();
    let mut add: Vec<usize> = Vec::new();
    let mut i: usize = 0;
    assert(rem@.map_values(|x: usize| lines@[x as int]@) =~= Seq::<LineV>::empty());
    assert(add@.map_values(|x: usize| lines@[x as int]@) =~= Seq::<LineV>::empty());
    while i < lines.len()
        invariant
            i <= lines@.len(),
            lv == lines_view(lines@),
            forall|k: int| 0 <= k < rem@.len() ==> (#[trigger] rem@[k]) < lines@.len(),
            forall|k: int| 0 <= k < add@.len() ==> (#[trigger] add@[k]) < lines@.len(),
            rows_view(rows@) + split_rows_from(fi, lv, i as int,
                rem@.map_values(|x: usize| lines@[x as int]@), add@.map_values(|x: usize| lines@[x as int]@))
                == start + split_rows(fi, lv),
        decreases lines@.len() - i,
    {
        let ghost rv = rem@.map_values(|x: usize| lines@[x as int]@);
        let ghost av = add@.map_values(|x: usize| lines@[x as int]@);
        assert(lv[i as int] == lines@[i as int]@);
        match lines[i].kind {
            LineKind::Context => {
                let ghost before = rows_view(rows@);
                emit_pair_rows(rows, fi, lines, &rem, &add);
                rem = Vec::new();
                add = Vec::new();
                let l = &lines[i];
                let left = SplitCell { file: fi, side_new: false, lineno: l.old_lineno, kind: LineKind::Context, text: l.text.clone(), emphasis: None };
                let right = SplitCell { file: fi, side_new: true, lineno: l.new_lineno, kind: LineKind::Context, text: l.text.clone(), emphasis: None };
                let row = Row::Pair(Some(left), Some(right));
                let ghost mid = rows_view(rows@);
                rows.push(row);
                proof {
                    assert(rows_view(rows@) =~= mid.push(row@));
                    assert(row@ == ctx_pair(fi, lv[i as int]));
                    assert(rem@.map_values(|x: usize| lines@[x as int]@) =~= Seq::<LineV>::empty());
                    assert(add@.map_values(|x: usize| lines@[x as int]@) =~= Seq::<LineV>::empty());
                    assert(split_rows_from(fi, lv, i as int, rv, av)
                        == flush_rows(fi, rv, av) + seq![ctx_pair(fi, lv[i as int])]
                            + split_rows_from(fi, lv, i + 1, Seq::empty(), Seq::empty()));
                    assert(rows_view(rows@) =~= before + flush_rows(fi, rv, av) + seq![ctx_pair(fi, lv[i as int])]);
                }
            }
            LineKind::Removed => {
                rem.push(i);
                proof {
                    assert(rem@.map_values(|x: usize| lines@[x as int]@) =~= rv.push(lv[i as int]));
                }
            }
            LineKind::Added => {
                add.push(i);
                proof {
                    assert(add@.map_values(|x: usize| lines@[x as int]@) =~= av.push(lv[i as int]));
                }
            }
        }
        i = i + 1;
    }
    emit_pair_rows(rows, fi, lines, &rem, &add);
}

/// Emit a hunk's lines as stacked `Line` rows.
fn emit_stack_body(rows: &mut Vec<Row>, fi: usize, lines: &Vec<Line>)
    ensures
        rows_view(final(rows)@) == rows_view(old(rows)@) + stack_rows(fi, lines_view(lines@)),
{
    let ghost lv = lines_view(lines@);
    let ghost start = rows_view(rows@);
    let mut i: usize = 0;
    while i < lines.len()
        invariant
            i <= lines@.len(),
            lv == lines_view(lines@),
            rows_view(rows@) == start + stack_rows(fi, lv.take(i as int)),
        decreases lines@.len() - i,
    {
        let l = &lines[i];
        let row = Row::Line { file: fi, kind: l.kind, old: l.old_lineno, new: l.new_lineno, text: l.text.clone(), emphasis: l.emphasis };
        let ghost prev = rows_view(rows@);
        rows.push(row);
        proof {
            assert(rows_view(rows@) =~= prev.push(row@));
            assert(lv.take(i + 1) =~= lv.take(i as int).push(lv[i as int]));
            assert(stack_rows(fi, lv.take(i + 1)) =~= stack_rows(fi, lv.take(i as int)).push(row@));
        }
        i = i + 1;
    }
    assert(lv.take(i as int) =~= lv);
}

/// The widest line of a hunk (see [`max_w`]).
fn lines_width(lines: &Vec<Line>) -> (w: usize)
    requires
        forall|k: int| 0 <= k < lines@.len() ==> (#[trigger] lines@[k]).text@.len() + GUTTER_W <= usize::MAX,
    ensures
        w == max_w(lines_view(lines@)),
{
    let ghost lv = lines_view(lines@);
    let mut w: usize = 0;
    let mut i: usize = 0;
    assert(lv.take(0) =~= Seq::<LineV>::empty());
    while i < lines.len()
        invariant
            i <= lines@.len(),
            lv == lines_view(lines@),
            forall|k: int| 0 <= k < lines@.len() ==> (#[trigger] lines@[k]).text@.len() + GUTTER_W <= usize::MAX,
            w == max_w(lv.take(i as int)),
        decreases lines@.len() - i,
    {
        let n = lines[i].text.as_str().unicode_len();
        let lw = GUTTER_W + n;
        if lw > w {
            w = lw;
        }
        i = i + 1;
        assert(lv.take(i as int).drop_last() =~= lv.take(i - 1));
    }
    assert(lv.take(i as int) =~= lv);
    w
}


/// The last new-side line a hunk covers (its start when it covers none).
pub open spec fn hunk_end(h: HunkV) -> u32 {
    (h.new_start + (if h.new_len >= 1 { h.new_len - 1 } else { 0 })) as u32
}

/// Rows of hunk `hi` of file `fi`: a gap marker carrying the previous hunk's
/// last new-side line (none before the first hunk), then the body.
pub open spec fn hunk_rows(fi: usize, hs: Seq<HunkV>, hi: int, split: bool) -> Seq<RowV> {
    (if hi > 0 { seq![RowV::HunkHeader(hunk_end(hs[hi - 1]))] } else { Seq::empty() })
        + (if split { split_rows(fi, hs[hi].lines) } else { stack_rows(fi, hs[hi].lines) })
}

/// Rows of the first `m` hunks.
pub open spec fn hunks_rows_upto(fi: usize, hs: Seq<HunkV>, m: int, split: bool) -> Seq<RowV>
    decreases m,
{
    if m <= 0 {
        Seq::empty()
    } else {
        hunks_rows_upto(fi, hs, m - 1, split) + hunk_rows(fi, hs, m - 1, split)
    }
}

/// Where each of the first `m` hunks begins, relative to the first hunk's rows.
pub open spec fn hunk_offs_upto(fi: usize, hs: Seq<HunkV>, m: int, split: bool) -> Seq<int>
    decreases m,
{
    if m <= 0 {
        Seq::empty()
    } else {
        hunk_offs_upto(fi, hs, m - 1, split).push(hunks_rows_upto(fi, hs, m - 1, split).len() as int)
    }
}

/// The widest line among the first `m` hunks.
pub open spec fn hunks_width_upto(hs: Seq<HunkV>, m: int) -> nat
    decreases m,
{
    if m <= 0 {
        0
    } else {
        let a = hunks_width_upto(hs, m - 1);
        let b = max_w(hs[m - 1].lines);
        if a >= b { a } else { b }
    }
}

/// Each offset moved by `b`.
pub open spec fn shift(s: Seq<int>, b: int) -> Seq<int> {
    s.map_values(|o: int| o + b)
}

/// A `usize` sequence as integers.
pub open spec fn ints(v: Seq<usize>) -> Seq<int> {
    v.map_values(|x: usize| x as int)
}

/// Every line text leaves room for the gutter in a `usize`, and every hunk's
/// last new-side line fits a `u32`.
pub open spec fn hunks_fit(hs: Seq<Hunk>) -> bool {
    forall|h: int| 0 <= h < hs.len() ==> {
        &&& (#[trigger] hs[h]).new_start + hs[h].new_len <= u32::MAX + 1
        &&& forall|k: int| 0 <= k < hs[h].lines@.len() ==> (#[trigger] hs[h].lines@[k]).text@.len() + GUTTER_W <= usize::MAX
    }
}

fn emit_hunks(rows: &mut Vec<Row>, hunk_starts: &mut Vec<usize>, fi: usize, hunks: &Vec<Hunk>, split: bool) -> (w: usize)
    requires
        hunks_fit(hunks@),
    ensures
        rows_view(final(rows)@) == rows_view(old(rows)@) + hunks_rows_upto(fi, hunks_view(hunks@), hunks@.len() as int, split),
        ints(final(hunk_starts)@) == ints(old(hunk_starts)@)
            + shift(hunk_offs_upto(fi, hunks_view(hunks@), hunks@.len() as int, split), old(rows)@.len() as int),
        w == hunks_width_upto(hunks_view(hunks@), hunks@.len() as int),
{
    let ghost hv = hunks_view(hunks@);
    let ghost r0 = rows_view(rows@);
    let ghost base = rows@.len() as int;
    let ghost hs0 = ints(hunk_starts@);
    let mut w: usize = 0;
    let mut prev_end: Option<u32> = None;
    let mut hi: usize = 0;
    proof {
        assert(r0 =~= r0 + hunks_rows_upto(fi, hv, 0, split));
        assert(hs0 =~= hs0 + shift(hunk_offs_upto(fi, hv, 0, split), base));
    }
    while hi < hunks.len()
        invariant
            hi <= hunks@.len(),
            hv == hunks_view(hunks@),
            hunks_fit(hunks@),
            base == r0.len(),
            rows_view(rows@) == r0 + hunks_rows_upto(fi, hv, hi as int, split),
            ints(hunk_starts@) == hs0 + shift(hunk_offs_upto(fi, hv, hi as int, split), base),
            w == hunks_width_upto(hv, hi as int),
            hi == 0 ==> prev_end is None,
            hi > 0 ==> prev_end == Some(hunk_end(hv[hi - 1])),
        decreases hunks@.len() - hi,
    {
        let h = &hunks[hi];
        assert(hv[hi as int] == h@);
        let ghost before = rows_view(rows@);
        let ghost hsb = hunk_starts@;
        let pos = rows.len();
        hunk_starts.push(pos);
        proof {
            assert(before.len() == rows@.len());
            assert(pos == base + hunks_rows_upto(fi, hv, hi as int, split).len());
            assert(ints(hunk_starts@) =~= ints(hsb).push(pos as int));
            assert(hunk_offs_upto(fi, hv, hi + 1, split)
                == hunk_offs_upto(fi, hv, hi as int, split).push(hunks_rows_upto(fi, hv, hi as int, split).len() as int));
            assert(shift(hunk_offs_upto(fi, hv, hi + 1, split), base)
                =~= shift(hunk_offs_upto(fi, hv, hi as int, split), base).push(pos as int));
        }
        match prev_end {
            Some(above) => {
                let row = Row::HunkHeader(above);
                rows.push(row);
                proof {
                    assert(rows_view(rows@) =~= before.push(row@));
                }
            }
            None => {}
        }
        let ghost mid = rows_view(rows@);
        if split {
            emit_split_body(rows, fi, &h.lines);
        } else {
            emit_stack_body(rows, fi, &h.lines);
        }
        let lw = lines_width(&h.lines);
        if lw > w {
            w = lw;
        }
        proof {
            assert(hunk_rows(fi, hv, hi as int, split) =~= (mid.skip(before.len() as int))
                + (if split { split_rows(fi, hv[hi as int].lines) } else { stack_rows(fi, hv[hi as int].lines) }));
            assert(rows_view(rows@) =~= before + hunk_rows(fi, hv, hi as int, split));
        }
        let end = h.new_start + (if h.new_len >= 1 { h.new_len - 1 } else { 0 });
        prev_end = Some(end);
        hi = hi + 1;
    }
    w
}


/// Whether file `fi` is marked reviewed (missing entries: not reviewed).
pub open spec fn is_viewed(viewed: Seq<bool>, fi: int) -> bool {
    0 <= fi < viewed.len() && viewed[fi]
}

/// The one-line note a binary file shows in stacked layout.
pub open spec fn note_row(fi: usize) -> RowV {
    RowV::Line { file: fi, kind: LineKind::Context, old: None, new: None, text: "Binary file — no preview"@, emphasis: None }
}

/// The rows one file contributes, whether it has a header (is visible), where
/// its hunks begin (relative to its first row) and its widest line.
pub struct ChunkV {
    pub rows: Seq<RowV>,
    pub visible: bool,
    pub offs: Seq<int>,
    pub width: nat,
}

/// The body of visible file `f` (index `fi`), after its header: a reviewed
/// file collapses to a placeholder; an undiffed one shows a pending
/// placeholder; a binary one shows nothing in split layout and a note line in
/// stacked layout before its hunks; every body ends with a spacer.
pub open spec fn body_chunk(f: DiffFile, fi: usize, viewed: Seq<bool>, split: bool) -> ChunkV {
    let hv = hunks_view(f.hunks@);
    if is_viewed(viewed, fi as int) {
        ChunkV { rows: seq![RowV::Collapsed(f.hunks@.len() as usize), RowV::Spacer], visible: true, offs: Seq::empty(), width: 0 }
    } else if !f.diffed {
        ChunkV { rows: seq![RowV::Pending, RowV::Spacer], visible: true, offs: Seq::empty(), width: 0 }
    } else if f.is_binary && split {
        ChunkV { rows: seq![RowV::Spacer], visible: true, offs: Seq::empty(), width: 0 }
    } else {
        let pre = if f.is_binary { seq![note_row(fi)] } else { Seq::empty() };
        ChunkV {
            rows: pre + hunks_rows_upto(fi, hv, hv.len() as int, split) + seq![RowV::Spacer],
            visible: true,
            offs: shift(hunk_offs_upto(fi, hv, hv.len() as int, split), pre.len() as int),
            width: hunks_width_upto(hv, hv.len() as int),
        }
    }
}

/// How many files from `fi` on share parent directory `dir`.
pub open spec fn dir_run(files: Seq<DiffFile>, fi: int, dir: Seq<char>) -> nat
    decreases files.len() - fi,
{
    if 0 <= fi < files.len() && parent_dir_spec(files[fi].path@) == dir {
        1 + dir_run(files, fi + 1, dir)
    } else {
        0
    }
}

/// How many of files `a..b` are reviewed.
pub open spec fn reviewed_between(viewed: Seq<bool>, a: int, b: int) -> nat
    decreases b - a,
{
    if a >= b {
        0
    } else {
        reviewed_between(viewed, a, b - 1) + (if is_viewed(viewed, b - 1) { 1nat } else { 0nat })
    }
}

/// Whether directory `dir` is folded.
pub open spec fn is_folded(collapsed: Seq<Seq<char>>, dir: Seq<char>) -> bool {
    exists|k: int| 0 <= k < collapsed.len() && #[trigger] collapsed[k] == dir
}

/// Whether file `fi` starts a new parent directory (files are sorted so a
/// directory's files are contiguous).
pub open spec fn first_of_dir(files: Seq<DiffFile>, fi: int) -> bool {
    fi == 0 || parent_dir_spec(files[fi - 1].path@) != parent_dir_spec(files[fi].path@)
}

/// The rows file `fi` contributes: in a folded directory, the directory's
/// first file stands for all of them with one placeholder (its file count and
/// how many are reviewed) and a spacer, the others contribute nothing;
/// otherwise a header and the [`body_chunk`].
pub open spec fn chunk(files: Seq<DiffFile>, viewed: Seq<bool>, split: bool, collapsed: Seq<Seq<char>>, fi: int) -> ChunkV {
    let dir = parent_dir_spec(files[fi].path@);
    if is_folded(collapsed, dir) {
        if first_of_dir(files, fi) {
            let n = dir_run(files, fi, dir);
            ChunkV {
                rows: seq![RowV::CollapsedDir { dir: dir, n: n as usize, reviewed: reviewed_between(viewed, fi, fi + n) as usize }, RowV::Spacer],
                visible: false,
                offs: Seq::empty(),
                width: 0,
            }
        } else {
            ChunkV { rows: Seq::empty(), visible: false, offs: Seq::empty(), width: 0 }
        }
    } else {
        let b = body_chunk(files[fi], fi as usize, viewed, split);
        ChunkV { rows: seq![RowV::FileHeader(fi as usize)] + b.rows, visible: true, offs: shift(b.offs, 1), width: b.width }
    }
}

/// The abstract value of a [`Plan`] (without its layout).
pub struct PlanV {
    pub rows: Seq<RowV>,
    pub file_starts: Seq<int>,
    pub visible_files: Seq<int>,
    pub hunk_starts: Seq<int>,
    pub content_w: nat,
}

/// The commit-message banner rows: one per line, then a spacer (nothing for
/// an empty banner).
pub open spec fn banner_rows(banner: Seq<Seq<char>>) -> Seq<RowV> {
    banner.map_values(|l: Seq<char>| RowV::Banner(l)) + (if banner.len() > 0 { seq![RowV::Spacer] } else { Seq::empty() })
}

/// The plan after the banner and the first `k` files: every file's chunk is
/// appended in order; a visible file records its header row and index, its
/// hunk starts are recorded at their absolute rows, and the content width is
/// the widest chunk's.
pub open spec fn plan_fold(
    files: Seq<DiffFile>,
    viewed: Seq<bool>,
    split: bool,
    collapsed: Seq<Seq<char>>,
    banner: Seq<Seq<char>>,
    k: int,
) -> PlanV
    decreases k,
{
    if k <= 0 {
        PlanV {
            rows: banner_rows(banner),
            file_starts: Seq::empty(),
            visible_files: Seq::empty(),
            hunk_starts: Seq::empty(),
            content_w: 0,
        }
    } else {
        let p = plan_fold(files, viewed, split, collapsed, banner, k - 1);
        let c = chunk(files, viewed, split, collapsed, k - 1);
        let base = p.rows.len() as int;
        PlanV {
            rows: p.rows + c.rows,
            file_starts: if c.visible { p.file_starts.push(base) } else { p.file_starts },
            visible_files: if c.visible { p.visible_files.push(k - 1) } else { p.visible_files },
            hunk_starts: p.hunk_starts + shift(c.offs, base),
            content_w: if p.content_w >= c.width { p.content_w } else { c.width },
        }
    }
}

/// The views of a sequence of strings.
pub open spec fn strs_v(v: Seq<String>) -> Seq<Seq<char>> {
    v.map_values(|s: String| s@)
}

/// Whether the plan fields equal `pv`.
pub open spec fn plan_is(p: Plan, pv: PlanV) -> bool {
    &&& rows_view(p.rows@) == pv.rows
    &&& ints(p.file_starts@) == pv.file_starts
    &&& ints(p.visible_files@) == pv.visible_files
    &&& ints(p.hunk_starts@) == pv.hunk_starts
    &&& p.content_w == pv.content_w
}

/// Every file's hunks satisfy [`hunks_fit`].
pub open spec fn files_fit(files: Seq<DiffFile>) -> bool {
    forall|f: int| 0 <= f < files.len() ==> hunks_fit((#[trigger] files[f]).hunks@)
}

/// Prepend the commit-message banner (one [`Row::Banner`] per line, then a
/// spacer) to `rows`; an empty banner pushes nothing.
fn prepend_banner(rows: &mut Vec<Row>, banner: &[String])
    ensures
        rows_view(final(rows)@) == rows_view(old(rows)@) + banner_rows(strs_v(banner@)),
{
    let ghost start = rows_view(rows@);
    let ghost bv = strs_v(banner@);
    let mut i: usize = 0;
    while i < banner.len()
        invariant
            i <= banner@.len(),
            bv == strs_v(banner@),
            rows_view(rows@) == start + bv.take(i as int).map_values(|l: Seq<char>| RowV::Banner(l)),
        decreases banner@.len() - i,
    {
        let row = Row::Banner(banner[i].clone());
        let ghost prev = rows_view(rows@);
        rows.push(row);
        proof {
            assert(rows_view(rows@) =~= prev.push(row@));
            assert(bv.take(i + 1).map_values(|l: Seq<char>| RowV::Banner(l))
                =~= bv.take(i as int).map_values(|l: Seq<char>| RowV::Banner(l)).push(row@));
        }
        i = i + 1;
    }
    assert(bv.take(i as int) =~= bv);
    if banner.len() > 0 {
        let ghost prev = rows_view(rows@);
        rows.push(Row::Spacer);
        assert(rows_view(rows@) =~= prev.push(RowV::Spacer));
    }
    assert(rows_view(rows@) =~= start + banner_rows(bv));
}

fn contains_str(collapsed: &[String], dir: &str) -> (r: bool)
    ensures
        r == is_folded(strs_v(collapsed@), dir@),
{
    let ghost cv = strs_v(collapsed@);
    let mut k: usize = 0;
    while k < collapsed.len()
        invariant
            k <= collapsed@.len(),
            cv == strs_v(collapsed@),
            forall|q: int| 0 <= q < k ==> #[trigger] cv[q] != dir@,
        decreases collapsed@.len() - k,
    {
        if str_eq(collapsed[k].as_str(), dir) {
            assert(cv[k as int] == dir@);
            return true;
        }
        k = k + 1;
    }
    false
}

fn emit_body(rows: &mut Vec<Row>, hunk_starts: &mut Vec<usize>, f: &DiffFile, fi: usize, viewed: &[bool], split: bool) -> (w: usize)
    requires
        hunks_fit(f.hunks@),
    ensures
        rows_view(final(rows)@) == rows_view(old(rows)@) + body_chunk(*f, fi, viewed@, split).rows,
        ints(final(hunk_starts)@) == ints(old(hunk_starts)@) + shift(body_chunk(*f, fi, viewed@, split).offs, old(rows)@.len() as int),
        w == body_chunk(*f, fi, viewed@, split).width,
{
    let ghost r0 = rows_view(rows@);
    let ghost h0 = ints(hunk_starts@);
    let ghost b = body_chunk(*f, fi, viewed@, split);
    let is_v = fi < viewed.len() && viewed[fi];
    if is_v {
        rows.push(Row::Collapsed(f.hunks.len()));
        rows.push(Row::Spacer);
        proof {
            assert(rows_view(rows@) =~= r0 + b.rows);
            assert(shift(b.offs, r0.len() as int) =~= Seq::<int>::empty());
            assert(h0 + Seq::<int>::empty() =~= h0);
        }
        return 0;
    }
    if !f.diffed {
        rows.push(Row::Pending);
        rows.push(Row::Spacer);
        proof {
            assert(rows_view(rows@) =~= r0 + b.rows);
            assert(shift(b.offs, r0.len() as int) =~= Seq::<int>::empty());
            assert(h0 + Seq::<int>::empty() =~= h0);
        }
        return 0;
    }
    if f.is_binary && split {
        rows.push(Row::Spacer);
        proof {
            assert(rows_view(rows@) =~= r0 + b.rows);
            assert(shift(b.offs, r0.len() as int) =~= Seq::<int>::empty());
            assert(h0 + Seq::<int>::empty() =~= h0);
        }
        return 0;
    }
    if f.is_binary {
        let row = Row::Line {
            file: fi,
            kind: LineKind::Context,
            old: None,
            new: None,
            text: String::from_str("Binary file — no preview"),
            emphasis: None,
        };
        rows.push(row);
        assert(rows_view(rows@) =~= r0.push(note_row(fi)));
    }
    let ghost r1 = rows_view(rows@);
    let ghost n1 = rows@.len() as int;
    let w = emit_hunks(rows, hunk_starts, fi, &f.hunks, split);
    let ghost r2 = rows_view(rows@);
    rows.push(Row::Spacer);
    proof {
        let hv = hunks_view(f.hunks@);
        let pre = if f.is_binary { seq![note_row(fi)] } else { Seq::<RowV>::empty() };
        assert(r1 =~= r0 + pre);
        assert(n1 == r0.len() + pre.len());
        assert(rows_view(rows@) =~= r2.push(RowV::Spacer));
        assert(rows_view(rows@) =~= r0 + b.rows);
        assert(shift(hunk_offs_upto(fi, hv, hv.len() as int, split), n1)
            =~= shift(b.offs, r0.len() as int));
    }
    w
}

fn count_dir_run(files: &Vec<DiffFile>, fi: usize, dir: &str) -> (n: usize)
    requires
        fi < files@.len(),
    ensures
        n == dir_run(files@, fi as int, dir@),
        fi + n <= files@.len(),
{
    // Walk forward from `fi` while the parent directory matches.
    let mut j: usize = fi;
    while j < files.len()
        invariant
            fi <= j <= files@.len(),
            forall|t: int| fi <= t < j ==> parent_dir_spec((#[trigger] files@[t]).path@) == dir@,
        ensures
            j == files@.len() || parent_dir_spec(files@[j as int].path@) != dir@,
        decreases files@.len() - j,
    {
        let d = parent_dir(files[j].path.as_str());
        if !str_eq(d.as_str(), dir) {
            break;
        }
        j = j + 1;
    }
    proof {
        lemma_dir_run(files@, fi as int, j as int, dir@);
    }
    j - fi
}

proof fn lemma_dir_run(files: Seq<DiffFile>, a: int, j: int, dir: Seq<char>)
    requires
        0 <= a <= j <= files.len(),
        forall|t: int| a <= t < j ==> parent_dir_spec((#[trigger] files[t]).path@) == dir,
        j == files.len() || parent_dir_spec(files[j].path@) != dir,
    ensures
        dir_run(files, a, dir) == j - a,
    decreases j - a,
{
    if a < j {
        lemma_dir_run(files, a + 1, j, dir);
    }
}

fn count_reviewed(viewed: &[bool], a: usize, b: usize) -> (r: usize)
    requires
        a <= b,
    ensures
        r == reviewed_between(viewed@, a as int, b as int),
{
    let mut r: usize = 0;
    let mut k: usize = a;
    while k < b
        invariant
            a <= k <= b,
            r == reviewed_between(viewed@, a as int, k as int),
            r <= k - a,
        decreases b - k,
    {
        if k < viewed.len() && viewed[k] {
            r = r + 1;
        }
        k = k + 1;
    }
    r
}


impl Plan {
    /// Build the plan for `layout` from a changeset (see [`plan_fold`]):
    /// reviewed files collapse to one placeholder row; files whose parent
    /// directory is in `collapsed` are folded out entirely, one placeholder
    /// per directory.
    pub fn build(cs: &Changeset, viewed: &[bool], layout: LayoutMode, collapsed: &[String]) -> (p: Plan)
        requires
            files_fit(cs.files@),
        ensures
            p.layout == layout,
            plan_is(p, plan_fold(cs.files@, viewed@, layout == LayoutMode::Split, strs_v(collapsed@),
                Seq::empty(), cs.files@.len() as int)),
    {
        let banner: Vec<String> = Vec::new();
        let p = Self::build_with_banner(cs, viewed, layout, collapsed, banner.as_slice());
        assert(strs_v(banner@) =~= Seq::<Seq<char>>::empty());
        p
    }

    /// Like [`Plan::build`], but with the commit-message `banner` (one
    /// [`Row::Banner`] per line, then a spacer) ahead of the first file; the
    /// navigation indices carry the banner's offset.
    pub fn build_with_banner(
        cs: &Changeset,
        viewed: &[bool],
        layout: LayoutMode,
        collapsed: &[String],
        banner: &[String],
    ) -> (p: Plan)
        requires
            files_fit(cs.files@),
        ensures
            p.layout == layout,
            plan_is(p, plan_fold(cs.files@, viewed@, layout == LayoutMode::Split, strs_v(collapsed@),
                strs_v(banner@), cs.files@.len() as int)),
    {
        let split = match layout {
            LayoutMode::Split => true,
            LayoutMode::Stack => false,
        };
        let ghost files = cs.files@;
        let ghost cv = strs_v(collapsed@);
        let ghost bv = strs_v(banner@);
        let mut rows: Vec<Row> = Vec::new();
        let mut file_starts: Vec<usize> = Vec::new();
        let mut visible_files: Vec<usize> = Vec::new();
        let mut hunk_starts: Vec<usize> = Vec::new();
        prepend_banner(&mut rows, banner);
        let mut content_w: usize = 0;
        let mut prev_dir: Option<String> = None;
        let mut fi: usize = 0;
        proof {
            assert(rows_view(rows@) =~= plan_fold(files, viewed@, split, cv, bv, 0).rows);
            assert(ints(file_starts@) =~= Seq::<int>::empty());
            assert(ints(visible_files@) =~= Seq::<int>::empty());
            assert(ints(hunk_starts@) =~= Seq::<int>::empty());
        }
        while fi < cs.files.len()
            invariant
                fi <= files.len(),
                files == cs.files@,
                files_fit(files),
                cv == strs_v(collapsed@),
                bv == strs_v(banner@),
                split == (layout == LayoutMode::Split),
                fi == 0 ==> prev_dir is None,
                fi > 0 ==> (prev_dir matches Some(d) && d@ == parent_dir_spec(files[fi - 1].path@)),
                rows_view(rows@) == plan_fold(files, viewed@, split, cv, bv, fi as int).rows,
                ints(file_starts@) == plan_fold(files, viewed@, split, cv, bv, fi as int).file_starts,
                ints(visible_files@) == plan_fold(files, viewed@, split, cv, bv, fi as int).visible_files,
                ints(hunk_starts@) == plan_fold(files, viewed@, split, cv, bv, fi as int).hunk_starts,
                content_w == plan_fold(files, viewed@, split, cv, bv, fi as int).content_w,
            decreases files.len() - fi,
        {
            let ghost p = plan_fold(files, viewed@, split, cv, bv, fi as int);
            let ghost c = chunk(files, viewed@, split, cv, fi as int);
            let ghost base = rows@.len() as int;
            let ghost r0 = rows_view(rows@);
            let ghost fs0 = file_starts@;
            let ghost vf0 = visible_files@;
            let ghost hs0 = ints(hunk_starts@);
            assert(r0.len() == rows@.len());
            let f = &cs.files[fi];
            let dir = parent_dir(f.path.as_str());
            let first = match &prev_dir {
                Some(pd) => !str_eq(pd.as_str(), dir.as_str()),
                None => true,
            };
            assert(first == first_of_dir(files, fi as int));
            let folded = contains_str(collapsed, dir.as_str());
            if folded {
                if first {
                    let n = count_dir_run(&cs.files, fi, dir.as_str());
                    let reviewed = count_reviewed(viewed, fi, fi + n);
                    let row = Row::CollapsedDir { dir: dir.clone(), n, reviewed };
                    rows.push(row);
                    rows.push(Row::Spacer);
                    proof {
                        assert(rows_view(rows@) =~= r0 + c.rows);
                    }
                } else {
                    proof {
                        assert(rows_view(rows@) =~= r0 + c.rows);
                    }
                }
                proof {
                    assert(hs0 + shift(c.offs, base) =~= hs0);
                }
            } else {
                let pos = rows.len();
                file_starts.push(pos);
                visible_files.push(fi);
                rows.push(Row::FileHeader(fi));
                let ghost r1 = rows_view(rows@);
                let ghost h1 = ints(hunk_starts@);
                assert(hunks_fit(files[fi as int].hunks@));
                let w = emit_body(&mut rows, &mut hunk_starts, f, fi, viewed, split);
                if w > content_w {
                    content_w = w;
                }
                proof {
                    let b = body_chunk(files[fi as int], fi, viewed@, split);
                    assert(r1 =~= r0.push(RowV::FileHeader(fi)));
                    assert(rows_view(rows@) =~= r0 + c.rows);
                    assert(shift(b.offs, base + 1) =~= shift(c.offs, base));
                    assert(ints(file_starts@) =~= ints(fs0).push(base));
                    assert(ints(visible_files@) =~= ints(vf0).push(fi as int));
                }
            }
            prev_dir = Some(dir);
            fi = fi + 1;
        }
        Plan { rows, file_starts, visible_files, hunk_starts, content_w, layout }
    }

    /// The visible ordinal (index into `file_starts`/`visible_files`) of the
    /// file at `Changeset::files` index `fi`, or `None` when it is folded away.
    pub fn visible_ordinal(&self, fi: usize) -> (r: Option<usize>)
        ensures
            r matches Some(k) ==> k < self.visible_files@.len() && self.visible_files@[k as int] == fi
                && forall|j: int| 0 <= j < k ==> self.visible_files@[j] != fi,
            r is None ==> forall|j: int| 0 <= j < self.visible_files@.len() ==> self.visible_files@[j] != fi,
    {
        let mut k: usize = 0;
        while k < self.visible_files.len()
            invariant
                k <= self.visible_files@.len(),
                forall|j: int| 0 <= j < k ==> self.visible_files@[j] != fi,
            decreases self.visible_files@.len() - k,
        {
            if self.visible_files[k] == fi {
                return Some(k);
            }
            k = k + 1;
        }
        None
    }

    /// Row index of the folded-directory placeholder for `dir`, if present.
    pub fn collapsed_row(&self, dir: &str) -> (r: Option<usize>)
        ensures
            r matches Some(k) ==> k < self.rows@.len() && is_dir_row(self.rows@[k as int]@, dir@)
                && forall|j: int| 0 <= j < k ==> !is_dir_row(#[trigger] self.rows@[j]@, dir@),
            r is None ==> forall|j: int| 0 <= j < self.rows@.len() ==> !is_dir_row(#[trigger] self.rows@[j]@, dir@),
    {
        let mut k: usize = 0;
        while k < self.rows.len()
            invariant
                k <= self.rows@.len(),
                forall|j: int| 0 <= j < k ==> !is_dir_row(#[trigger] self.rows@[j]@, dir@),
            decreases self.rows@.len() - k,
        {
            match &self.rows[k] {
                Row::CollapsedDir { dir: d, .. } => {
                    if str_eq(d.as_str(), dir) {
                        return Some(k);
                    }
                }
                _ => {}
            }
            k = k + 1;
        }
        None
    }
}

/// Whether `r` is the folded-directory placeholder of `dir`.
pub open spec fn is_dir_row(r: RowV, dir: Seq<char>) -> bool {
    r matches RowV::CollapsedDir { dir: d, .. } && d == dir
}

/// Strictly increasing.
pub open spec fn strictly_sorted(s: Seq<usize>) -> bool {
    forall|a: int, b: int| 0 <= a < b < s.len() ==> s[a] < s[b]
}

/// Index of the region containing `row` among regions starting at `starts`:
/// the last start `<= row`, or 0 when there is none.
pub open spec fn region_of(starts: Seq<usize>, row: usize, r: int) -> bool {
    ||| r == 0 && (starts.len() == 0 || starts[0] > row)
    ||| 0 <= r < starts.len() && starts[r] <= row && (r + 1 == starts.len() || starts[r + 1] > row)
}

/// How many of `starts` are `<= row`.
pub open spec fn count_le(starts: Seq<usize>, row: usize) -> nat
    decreases starts.len(),
{
    if starts.len() == 0 {
        0
    } else {
        count_le(starts.drop_last(), row) + (if starts.last() <= row { 1nat } else { 0nat })
    }
}

/// The region index of `row` among sorted `starts`: the last start `<= row`,
/// or 0 when there is none.
pub open spec fn file_region(starts: Seq<usize>, row: usize) -> int {
    if count_le(starts, row) == 0 { 0 } else { count_le(starts, row) - 1 }
}

/// When exactly the first `m` starts are `<= row`, `m` of them are.
proof fn lemma_count_le(starts: Seq<usize>, row: usize, m: int)
    requires
        0 <= m <= starts.len(),
        forall|k: int| 0 <= k < m ==> starts[k] <= row,
        forall|k: int| m <= k < starts.len() ==> starts[k] > row,
    ensures
        count_le(starts, row) == m,
    decreases starts.len(),
{
    if starts.len() > 0 {
        let d = starts.drop_last();
        if m == starts.len() {
            lemma_count_le(d, row, m - 1);
        } else {
            lemma_count_le(d, row, m);
        }
    }
}

/// The halving search [`file_at`] runs over `starts[lo..hi)`: it moves past
/// the midpoint when the start there is `<= row`, else stops before it, and
/// ends where the two bounds meet.
pub open spec fn search_end(starts: Seq<usize>, row: usize, lo: int, hi: int) -> int
    decreases hi - lo,
{
    if lo < hi {
        let mid = lo + (hi - lo) / 2;
        if starts[mid] <= row {
            search_end(starts, row, mid + 1, hi)
        } else {
            search_end(starts, row, lo, mid)
        }
    } else {
        lo
    }
}

/// What [`file_at`] returns on any `starts`: one before where the search over
/// all of `starts` ends, or 0 when it ends at the front.
pub open spec fn file_at_spec(starts: Seq<usize>, row: usize) -> int {
    let c = search_end(starts, row, 0, starts.len() as int);
    if c == 0 { 0 } else { c - 1 }
}

proof fn lemma_search_bounds(starts: Seq<usize>, row: usize, lo: int, hi: int)
    requires
        0 <= lo <= hi,
    ensures
        lo <= search_end(starts, row, lo, hi) <= hi,
    decreases hi - lo,
{
    if lo < hi {
        let mid = lo + (hi - lo) / 2;
        if starts[mid] <= row {
            lemma_search_bounds(starts, row, mid + 1, hi);
        } else {
            lemma_search_bounds(starts, row, lo, mid);
        }
    }
}

proof fn lemma_search_sorted(starts: Seq<usize>, row: usize, lo: int, hi: int)
    requires
        0 <= lo <= hi <= starts.len(),
        strictly_sorted(starts),
        forall|k: int| 0 <= k < lo ==> starts[k] <= row,
        forall|k: int| hi <= k < starts.len() ==> starts[k] > row,
    ensures
        forall|k: int| 0 <= k < search_end(starts, row, lo, hi) ==> starts[k] <= row,
        forall|k: int| search_end(starts, row, lo, hi) <= k < starts.len() ==> starts[k] > row,
    decreases hi - lo,
{
    if lo < hi {
        let mid = lo + (hi - lo) / 2;
        if starts[mid] <= row {
            lemma_search_sorted(starts, row, mid + 1, hi);
        } else {
            lemma_search_sorted(starts, row, lo, mid);
        }
    }
}

/// On strictly increasing `starts` (as a plan's file starts are), the file
/// [`file_at`] finds is the region holding `row`: the last start `<= row`, or
/// 0 before the first start.
pub proof fn file_at_region_law(starts: Seq<usize>, row: usize)
    requires
        strictly_sorted(starts),
    ensures
        region_of(starts, row, file_at_spec(starts, row)),
        file_at_spec(starts, row) == file_region(starts, row),
{
    let n = starts.len() as int;
    lemma_search_bounds(starts, row, 0, n);
    lemma_search_sorted(starts, row, 0, n);
    lemma_count_le(starts, row, search_end(starts, row, 0, n));
}

/// Index of the file whose region contains `row` (the last start `<= row`;
/// 0 before the first start; see [`file_at_region_law`]). `starts` is
/// expected sorted, as a plan's file starts are; on any input the result is
/// [`file_at_spec`], 0 or an index into `starts`.
pub fn file_at(starts: &[usize], row: usize) -> (r: usize)
    ensures
        r == file_at_spec(starts@, row),
        r == 0 || r < starts@.len(),
{
    // Binary search for the number of starts <= row.
    let mut lo: usize = 0;
    let mut hi: usize = starts.len();
    while lo < hi
        invariant
            lo <= hi <= starts@.len(),
            search_end(starts@, row, 0, starts@.len() as int) == search_end(starts@, row, lo as int, hi as int),
        decreases hi - lo,
    {
        let mid = lo + (hi - lo) / 2;
        if starts[mid] <= row {
            lo = mid + 1;
        } else {
            hi = mid;
        }
    }
    proof {
        lemma_search_bounds(starts@, row, 0, starts@.len() as int);
    }
    if lo == 0 {
        0
    } else {
        lo - 1
    }
}

/// A built plan indexes its visible files consistently: the file starts are
/// strictly increasing rows past the banner, parallel to `visible_files`
/// (which are increasing file indices), and the row at each start is that
/// file's header.
pub proof fn plan_file_starts_law(
    files: Seq<DiffFile>,
    viewed: Seq<bool>,
    split: bool,
    collapsed: Seq<Seq<char>>,
    banner: Seq<Seq<char>>,
    k: int,
)
    requires
        0 <= k <= files.len(),
    ensures
        ({
            let p = plan_fold(files, viewed, split, collapsed, banner, k);
            &&& p.file_starts.len() == p.visible_files.len()
            &&& forall|a: int, b: int| 0 <= a < b < p.file_starts.len() ==> p.file_starts[a] < p.file_starts[b]
            &&& forall|a: int, b: int| 0 <= a < b < p.visible_files.len() ==> p.visible_files[a] < p.visible_files[b]
            &&& forall|j: int| 0 <= j < p.visible_files.len() ==> 0 <= #[trigger] p.visible_files[j] < k
            &&& forall|j: int| 0 <= j < p.file_starts.len() ==> {
                &&& banner_rows(banner).len() <= #[trigger] p.file_starts[j] < p.rows.len()
                &&& p.rows[p.file_starts[j]] == RowV::FileHeader(p.visible_files[j] as usize)
            }
        }),
    decreases k,
{
    if k > 0 {
        plan_file_starts_law(files, viewed, split, collapsed, banner, k - 1);
        let p0 = plan_fold(files, viewed, split, collapsed, banner, k - 1);
        let c = chunk(files, viewed, split, collapsed, k - 1);
        let p = plan_fold(files, viewed, split, collapsed, banner, k);
        assert(p.rows == p0.rows + c.rows);
        assert forall|j: int| 0 <= j < p0.file_starts.len() implies p.rows[p0.file_starts[j]] == p0.rows[p0.file_starts[j]] by {}
        assert(p.rows.len() >= p0.rows.len());
        if c.visible {
            assert(c.rows[0] == RowV::FileHeader((k - 1) as usize));
            assert(p.rows[p0.rows.len() as int] == c.rows[0]);
            assert(p.file_starts == p0.file_starts.push(p0.rows.len() as int));
            assert(p.visible_files == p0.visible_files.push(k - 1));
            assert(banner_rows(banner).len() <= p0.rows.len()) by {
                lemma_plan_rows_grow(files, viewed, split, collapsed, banner, k - 1);
            }
        } else {
            assert(p.file_starts == p0.file_starts);
            assert(p.visible_files == p0.visible_files);
        }
    } else {
        let p = plan_fold(files, viewed, split, collapsed, banner, k);
        assert(p.file_starts.len() == 0);
    }
}

/// A plan's rows start with the banner's rows.
proof fn lemma_plan_rows_grow(
    files: Seq<DiffFile>,
    viewed: Seq<bool>,
    split: bool,
    collapsed: Seq<Seq<char>>,
    banner: Seq<Seq<char>>,
    k: int,
)
    ensures
        banner_rows(banner).len() <= plan_fold(files, viewed, split, collapsed, banner, k).rows.len(),
    decreases k,
{
    if k > 0 {
        lemma_plan_rows_grow(files, viewed, split, collapsed, banner, k - 1);
    }
}

/// The banner only shifts a plan down: with a banner the rows are the banner
/// rows then the rows without one, every file and hunk start moves down by
/// the banner's row count, and the visible files and content width are the
/// same.
pub proof fn plan_banner_law(
    files: Seq<DiffFile>,
    viewed: Seq<bool>,
    split: bool,
    collapsed: Seq<Seq<char>>,
    banner: Seq<Seq<char>>,
    k: int,
)
    requires
        0 <= k <= files.len(),
    ensures
        ({
            let p = plan_fold(files, viewed, split, collapsed, banner, k);
            let q = plan_fold(files, viewed, split, collapsed, Seq::empty(), k);
            let n = banner_rows(banner).len() as int;
            &&& p.rows == banner_rows(banner) + q.rows
            &&& p.file_starts == shift(q.file_starts, n)
            &&& p.visible_files == q.visible_files
            &&& p.hunk_starts == shift(q.hunk_starts, n)
            &&& p.content_w == q.content_w
        }),
    decreases k,
{
    let n = banner_rows(banner).len() as int;
    let p = plan_fold(files, viewed, split, collapsed, banner, k);
    let q = plan_fold(files, viewed, split, collapsed, Seq::empty(), k);
    if k > 0 {
        plan_banner_law(files, viewed, split, collapsed, banner, k - 1);
        let p0 = plan_fold(files, viewed, split, collapsed, banner, k - 1);
        let q0 = plan_fold(files, viewed, split, collapsed, Seq::empty(), k - 1);
        let c = chunk(files, viewed, split, collapsed, k - 1);
        assert(p.rows =~= banner_rows(banner) + q.rows);
        assert(p0.rows.len() == n + q0.rows.len());
        assert(p.file_starts =~= shift(q.file_starts, n));
        assert(p.hunk_starts =~= shift(q.hunk_starts, n));
    } else {
        assert(banner_rows(Seq::<Seq<char>>::empty()) =~= Seq::<RowV>::empty());
        assert(p.rows =~= banner_rows(banner) + q.rows);
        assert(p.file_starts =~= shift(q.file_starts, n));
        assert(p.hunk_starts =~= shift(q.hunk_starts, n));
    }
}

/// A reviewed or not-yet-diffed file's chrome does not depend on the layout:
/// its body is the same placeholder and spacer in split and stacked layout.
pub proof fn chrome_layout_law(f: DiffFile, fi: usize, viewed: Seq<bool>)
    requires
        is_viewed(viewed, fi as int) || !f.diffed,
    ensures
        body_chunk(f, fi, viewed, true) == body_chunk(f, fi, viewed, false),
{
}

/// The files among the first `k` whose parent directory is not folded, in order.
pub open spec fn unfolded_upto(files: Seq<DiffFile>, collapsed: Seq<Seq<char>>, k: int) -> Seq<int>
    decreases k,
{
    if k <= 0 {
        Seq::empty()
    } else if is_folded(collapsed, parent_dir_spec(files[k - 1].path@)) {
        unfolded_upto(files, collapsed, k - 1)
    } else {
        unfolded_upto(files, collapsed, k - 1).push(k - 1)
    }
}

proof fn lemma_offs_sorted(fi: usize, hs: Seq<HunkV>, m: int, split: bool)
    ensures
        forall|a: int, b: int| 0 <= a <= b < hunk_offs_upto(fi, hs, m, split).len()
            ==> hunk_offs_upto(fi, hs, m, split)[a] <= hunk_offs_upto(fi, hs, m, split)[b],
        forall|j: int| 0 <= j < hunk_offs_upto(fi, hs, m, split).len()
            ==> 0 <= #[trigger] hunk_offs_upto(fi, hs, m, split)[j] <= hunks_rows_upto(fi, hs, m, split).len(),
    decreases m,
{
    if m > 0 {
        lemma_offs_sorted(fi, hs, m - 1, split);
        let o0 = hunk_offs_upto(fi, hs, m - 1, split);
        let o = hunk_offs_upto(fi, hs, m, split);
        let r0 = hunks_rows_upto(fi, hs, m - 1, split).len() as int;
        assert(hunks_rows_upto(fi, hs, m, split).len() >= r0);
        assert(o == o0.push(r0));
        assert forall|j: int| 0 <= j < o.len() implies 0 <= #[trigger] o[j] <= hunks_rows_upto(fi, hs, m, split).len() by {
            if j < o0.len() {
                assert(o[j] == o0[j]);
            }
        }
        assert forall|a: int, b: int| 0 <= a <= b < o.len() implies o[a] <= o[b] by {
            if b < o0.len() {
                assert(o[a] == o0[a] && o[b] == o0[b]);
            } else if a < o0.len() {
                assert(o[a] == o0[a] && 0 <= o0[a] <= r0);
            }
        }
    }
}

proof fn lemma_chunk_shape(files: Seq<DiffFile>, viewed: Seq<bool>, split: bool, collapsed: Seq<Seq<char>>, fi: int)
    requires
        0 <= fi < files.len(),
    ensures
        ({
            let c = chunk(files, viewed, split, collapsed, fi);
            &&& c.visible == !is_folded(collapsed, parent_dir_spec(files[fi].path@))
            &&& c.rows.len() > 0 ==> c.rows.last() == RowV::Spacer
            &&& forall|a: int, b: int| 0 <= a <= b < c.offs.len() ==> c.offs[a] <= c.offs[b]
            &&& forall|j: int| 0 <= j < c.offs.len() ==> 0 <= #[trigger] c.offs[j] < c.rows.len()
        }),
{
    let f = files[fi];
    let hv = hunks_view(f.hunks@);
    lemma_offs_sorted(fi as usize, hv, hv.len() as int, split);
}

/// A built plan shows exactly the files outside folded directories, in
/// order; its hunk starts are in order and lie past the banner within the
/// rows; and every plan that has rows ends with a spacer.
pub proof fn plan_shape_law(
    files: Seq<DiffFile>,
    viewed: Seq<bool>,
    split: bool,
    collapsed: Seq<Seq<char>>,
    banner: Seq<Seq<char>>,
    k: int,
)
    requires
        0 <= k <= files.len(),
    ensures
        ({
            let p = plan_fold(files, viewed, split, collapsed, banner, k);
            &&& p.visible_files == unfolded_upto(files, collapsed, k)
            &&& p.rows.len() > 0 ==> p.rows.last() == RowV::Spacer
            &&& forall|a: int, b: int| 0 <= a <= b < p.hunk_starts.len() ==> p.hunk_starts[a] <= p.hunk_starts[b]
            &&& forall|j: int| 0 <= j < p.hunk_starts.len()
                ==> banner_rows(banner).len() <= #[trigger] p.hunk_starts[j] < p.rows.len()
        }),
    decreases k,
{
    let p = plan_fold(files, viewed, split, collapsed, banner, k);
    if k > 0 {
        plan_shape_law(files, viewed, split, collapsed, banner, k - 1);
        lemma_plan_rows_grow(files, viewed, split, collapsed, banner, k - 1);
        lemma_chunk_shape(files, viewed, split, collapsed, k - 1);
        let p0 = plan_fold(files, viewed, split, collapsed, banner, k - 1);
        let c = chunk(files, viewed, split, collapsed, k - 1);
        let base = p0.rows.len() as int;
        let sh = shift(c.offs, base);
        assert(p.rows == p0.rows + c.rows);
        assert(p.hunk_starts == p0.hunk_starts + sh);
        assert forall|j: int| 0 <= j < p.hunk_starts.len()
            implies banner_rows(banner).len() <= #[trigger] p.hunk_starts[j] < p.rows.len() by {
            if j >= p0.hunk_starts.len() {
                assert(p.hunk_starts[j] == sh[j - p0.hunk_starts.len()]);
                assert(sh[j - p0.hunk_starts.len()] == c.offs[j - p0.hunk_starts.len()] + base);
            }
        }
        assert forall|a: int, b: int| 0 <= a <= b < p.hunk_starts.len() implies p.hunk_starts[a] <= p.hunk_starts[b] by {
            let n0 = p0.hunk_starts.len() as int;
            if b >= n0 {
                assert(p.hunk_starts[b] == c.offs[b - n0] + base);
                if a >= n0 {
                    assert(p.hunk_starts[a] == c.offs[a - n0] + base);
                } else {
                    assert(p.hunk_starts[a] == p0.hunk_starts[a]);
                }
            }
        }
        if c.rows.len() > 0 {
            assert(p.rows.last() == c.rows.last());
        } else {
            assert(p.rows == p0.rows);
        }
    } else {
        if banner.len() > 0 {
            assert(p.rows.last() == RowV::Spacer);
        }
    }
}

/// The cell a line gets on the old (left) side in split layout.
pub open spec fn old_cell(fi: usize, l: LineV) -> CellV {
    if l.kind == LineKind::Context {
        CellV { file: fi, side_new: false, lineno: l.old_lineno, kind: LineKind::Context, text: l.text, emphasis: None }
    } else {
        left_cell(fi, l)
    }
}

/// The cell a line gets on the new (right) side in split layout.
pub open spec fn new_cell(fi: usize, l: LineV) -> CellV {
    if l.kind == LineKind::Context {
        CellV { file: fi, side_new: true, lineno: l.new_lineno, kind: LineKind::Context, text: l.text, emphasis: None }
    } else {
        right_cell(fi, l)
    }
}

/// The old-side cells of lines `i..` (all but the added lines), in order.
pub open spec fn old_cells_from(fi: usize, ls: Seq<LineV>, i: int) -> Seq<CellV>
    decreases ls.len() - i,
{
    if i < 0 || i >= ls.len() {
        Seq::empty()
    } else if ls[i].kind == LineKind::Added {
        old_cells_from(fi, ls, i + 1)
    } else {
        seq![old_cell(fi, ls[i])] + old_cells_from(fi, ls, i + 1)
    }
}

/// The new-side cells of lines `i..` (all but the removed lines), in order.
pub open spec fn new_cells_from(fi: usize, ls: Seq<LineV>, i: int) -> Seq<CellV>
    decreases ls.len() - i,
{
    if i < 0 || i >= ls.len() {
        Seq::empty()
    } else if ls[i].kind == LineKind::Removed {
        new_cells_from(fi, ls, i + 1)
    } else {
        seq![new_cell(fi, ls[i])] + new_cells_from(fi, ls, i + 1)
    }
}

/// The left cells of the pair rows of `rows`, in order.
pub open spec fn left_cells(rows: Seq<RowV>) -> Seq<CellV>
    decreases rows.len(),
{
    if rows.len() == 0 {
        Seq::empty()
    } else {
        match rows.last() {
            RowV::Pair(Some(c), _) => left_cells(rows.drop_last()).push(c),
            _ => left_cells(rows.drop_last()),
        }
    }
}

/// The right cells of the pair rows of `rows`, in order.
pub open spec fn right_cells(rows: Seq<RowV>) -> Seq<CellV>
    decreases rows.len(),
{
    if rows.len() == 0 {
        Seq::empty()
    } else {
        match rows.last() {
            RowV::Pair(_, Some(c)) => right_cells(rows.drop_last()).push(c),
            _ => right_cells(rows.drop_last()),
        }
    }
}

/// Every row is a pair with at least one cell.
pub open spec fn all_pairs(rows: Seq<RowV>) -> bool {
    forall|k: int| 0 <= k < rows.len() ==> (#[trigger] rows[k] matches RowV::Pair(l, r) && (l is Some || r is Some))
}

proof fn lemma_cells_concat(a: Seq<RowV>, b: Seq<RowV>)
    ensures
        left_cells(a + b) == left_cells(a) + left_cells(b),
        right_cells(a + b) == right_cells(a) + right_cells(b),
    decreases b.len(),
{
    if b.len() > 0 {
        lemma_cells_concat(a, b.drop_last());
        assert((a + b).drop_last() =~= a + b.drop_last());
        assert((a + b).last() == b.last());
    } else {
        assert(a + b =~= a);
        assert(left_cells(b) =~= Seq::<CellV>::empty());
        assert(right_cells(b) =~= Seq::<CellV>::empty());
    }
}

proof fn lemma_flush_prefix(fi: usize, rem: Seq<LineV>, add: Seq<LineV>, m: int)
    requires
        0 <= m <= flush_rows(fi, rem, add).len(),
    ensures
        left_cells(flush_rows(fi, rem, add).take(m))
            == rem.map_values(|l: LineV| left_cell(fi, l)).take(if m <= rem.len() { m } else { rem.len() as int }),
        right_cells(flush_rows(fi, rem, add).take(m))
            == add.map_values(|l: LineV| right_cell(fi, l)).take(if m <= add.len() { m } else { add.len() as int }),
    decreases m,
{
    let f = flush_rows(fi, rem, add);
    let lm = rem.map_values(|l: LineV| left_cell(fi, l));
    let rm = add.map_values(|l: LineV| right_cell(fi, l));
    if m > 0 {
        lemma_flush_prefix(fi, rem, add, m - 1);
        assert(f.take(m).drop_last() =~= f.take(m - 1));
        assert(f.take(m).last() == f[m - 1]);
        if m <= rem.len() {
            assert(lm.take(m) =~= lm.take(m - 1).push(left_cell(fi, rem[m - 1])));
        }
        if m <= add.len() {
            assert(rm.take(m) =~= rm.take(m - 1).push(right_cell(fi, add[m - 1])));
        }
    } else {
        assert(lm.take(0) =~= Seq::<CellV>::empty());
        assert(rm.take(0) =~= Seq::<CellV>::empty());
        assert(f.take(0) =~= Seq::<RowV>::empty());
    }
}

proof fn lemma_flush_cells(fi: usize, rem: Seq<LineV>, add: Seq<LineV>)
    ensures
        left_cells(flush_rows(fi, rem, add)) == rem.map_values(|l: LineV| left_cell(fi, l)),
        right_cells(flush_rows(fi, rem, add)) == add.map_values(|l: LineV| right_cell(fi, l)),
        all_pairs(flush_rows(fi, rem, add)),
{
    let f = flush_rows(fi, rem, add);
    lemma_flush_prefix(fi, rem, add, f.len() as int);
    assert(f.take(f.len() as int) =~= f);
    assert(rem.map_values(|l: LineV| left_cell(fi, l)).take(rem.len() as int) =~= rem.map_values(|l: LineV| left_cell(fi, l)));
    assert(add.map_values(|l: LineV| right_cell(fi, l)).take(add.len() as int) =~= add.map_values(|l: LineV| right_cell(fi, l)));
}

proof fn lemma_split_cells(fi: usize, ls: Seq<LineV>, i: int, rem: Seq<LineV>, add: Seq<LineV>)
    requires
        0 <= i <= ls.len(),
    ensures
        left_cells(split_rows_from(fi, ls, i, rem, add))
            == rem.map_values(|l: LineV| left_cell(fi, l)) + old_cells_from(fi, ls, i),
        right_cells(split_rows_from(fi, ls, i, rem, add))
            == add.map_values(|l: LineV| right_cell(fi, l)) + new_cells_from(fi, ls, i),
        all_pairs(split_rows_from(fi, ls, i, rem, add)),
    decreases ls.len() - i,
{
    let lm = rem.map_values(|l: LineV| left_cell(fi, l));
    let rm = add.map_values(|l: LineV| right_cell(fi, l));
    lemma_flush_cells(fi, rem, add);
    if i >= ls.len() {
        assert(lm + Seq::<CellV>::empty() =~= lm);
        assert(rm + Seq::<CellV>::empty() =~= rm);
    } else if ls[i].kind == LineKind::Context {
        let f = flush_rows(fi, rem, add);
        let c = seq![ctx_pair(fi, ls[i])];
        let rest = split_rows_from(fi, ls, i + 1, Seq::empty(), Seq::empty());
        lemma_split_cells(fi, ls, i + 1, Seq::empty(), Seq::empty());
        lemma_cells_concat(f, c);
        lemma_cells_concat(f + c, rest);
        assert(Seq::<LineV>::empty().map_values(|l: LineV| left_cell(fi, l)) =~= Seq::<CellV>::empty());
        assert(Seq::<LineV>::empty().map_values(|l: LineV| right_cell(fi, l)) =~= Seq::<CellV>::empty());
        assert(left_cells(c) =~= seq![old_cell(fi, ls[i])]) by {
            reveal_with_fuel(left_cells, 2);
            assert(c.drop_last() =~= Seq::<RowV>::empty());
            assert(c.last() == ctx_pair(fi, ls[i]));
            assert(left_cells(c.drop_last()) =~= Seq::<CellV>::empty());
        }
        assert(right_cells(c) =~= seq![new_cell(fi, ls[i])]) by {
            reveal_with_fuel(right_cells, 2);
            assert(c.drop_last() =~= Seq::<RowV>::empty());
            assert(c.last() == ctx_pair(fi, ls[i]));
            assert(right_cells(c.drop_last()) =~= Seq::<CellV>::empty());
        }
        assert(lm + seq![old_cell(fi, ls[i])] + (Seq::<CellV>::empty() + old_cells_from(fi, ls, i + 1))
            =~= lm + old_cells_from(fi, ls, i));
        assert(rm + seq![new_cell(fi, ls[i])] + (Seq::<CellV>::empty() + new_cells_from(fi, ls, i + 1))
            =~= rm + new_cells_from(fi, ls, i));
        let all = f + c + rest;
        assert forall|k: int| 0 <= k < all.len() implies (#[trigger] all[k] matches RowV::Pair(l, r) && (l is Some || r is Some)) by {
            if k < f.len() {
                assert(all[k] == f[k]);
            } else if k < f.len() + 1 {
                assert(all[k] == c[0]);
            } else {
                assert(all[k] == rest[k - f.len() - 1]);
            }
        }
    } else if ls[i].kind == LineKind::Removed {
        lemma_split_cells(fi, ls, i + 1, rem.push(ls[i]), add);
        assert(rem.push(ls[i]).map_values(|l: LineV| left_cell(fi, l)) =~= lm.push(left_cell(fi, ls[i])));
        assert(lm.push(left_cell(fi, ls[i])) + old_cells_from(fi, ls, i + 1) =~= lm + old_cells_from(fi, ls, i));
    } else {
        lemma_split_cells(fi, ls, i + 1, rem, add.push(ls[i]));
        assert(add.push(ls[i]).map_values(|l: LineV| right_cell(fi, l)) =~= rm.push(right_cell(fi, ls[i])));
        assert(rm.push(right_cell(fi, ls[i])) + new_cells_from(fi, ls, i + 1) =~= rm + new_cells_from(fi, ls, i));
    }
}

/// In split layout every row pairs at least one cell, and each side's cells
/// are exactly that side's lines, in order: the left cells are the lines but
/// the added ones (numbered by old line), the right cells the lines but the
/// removed ones (numbered by new line); context cells carry no emphasis.
pub proof fn split_rows_law(fi: usize, ls: Seq<LineV>)
    ensures
        all_pairs(split_rows(fi, ls)),
        left_cells(split_rows(fi, ls)) == old_cells_from(fi, ls, 0),
        right_cells(split_rows(fi, ls)) == new_cells_from(fi, ls, 0),
{
    lemma_split_cells(fi, ls, 0, Seq::empty(), Seq::empty());
    assert(Seq::<LineV>::empty().map_values(|l: LineV| left_cell(fi, l)) + old_cells_from(fi, ls, 0) =~= old_cells_from(fi, ls, 0));
    assert(Seq::<LineV>::empty().map_values(|l: LineV| right_cell(fi, l)) + new_cells_from(fi, ls, 0) =~= new_cells_from(fi, ls, 0));
}

/// The first index from `i` on that holds a context line (or the end).
pub open spec fn next_context(ls: Seq<LineV>, i: int) -> int
    decreases ls.len() - i,
{
    if 0 <= i < ls.len() && ls[i].kind != LineKind::Context {
        next_context(ls, i + 1)
    } else {
        i
    }
}

/// How many of lines `[i, e)` have kind `k`.
pub open spec fn kind_count(ls: Seq<LineV>, i: int, e: int, k: LineKind) -> nat
    decreases e - i,
{
    if i < e {
        (if ls[i].kind == k { 1nat } else { 0nat }) + kind_count(ls, i + 1, e, k)
    } else {
        0
    }
}

/// The next context line lies at or after `i`, and past `i` when line `i` is
/// a changed line.
pub proof fn lemma_next_context(ls: Seq<LineV>, i: int)
    requires
        0 <= i <= ls.len(),
    ensures
        i <= next_context(ls, i) <= ls.len(),
        i < ls.len() && ls[i].kind != LineKind::Context ==> i < next_context(ls, i),
    decreases ls.len() - i,
{
    if i < ls.len() && ls[i].kind != LineKind::Context {
        lemma_next_context(ls, i + 1);
    }
}

/// How many split rows lines `i..` take: one per context line, and per
/// maximal run of changed lines as many as the longer of its removed and
/// added sides.
pub open spec fn split_len(ls: Seq<LineV>, i: int) -> nat
    decreases ls.len() - i,
{
    if i < 0 || i >= ls.len() {
        0
    } else if ls[i].kind == LineKind::Context {
        1 + split_len(ls, i + 1)
    } else {
        let e = next_context(ls, i);
        proof {
            lemma_next_context(ls, i);
        }
        let r = kind_count(ls, i, e, LineKind::Removed);
        let a = kind_count(ls, i, e, LineKind::Added);
        (if r >= a { r } else { a }) + split_len(ls, e)
    }
}

proof fn lemma_split_len_unfold(ls: Seq<LineV>, j: int)
    requires
        0 <= j <= ls.len(),
    ensures
        ({
            let e = next_context(ls, j);
            let r = kind_count(ls, j, e, LineKind::Removed);
            let a = kind_count(ls, j, e, LineKind::Added);
            split_len(ls, j) == (if r >= a { r } else { a }) + split_len(ls, e)
        }),
{
    lemma_next_context(ls, j);
}

proof fn lemma_split_rows_len(fi: usize, ls: Seq<LineV>, i: int, rem: Seq<LineV>, add: Seq<LineV>)
    requires
        0 <= i <= ls.len(),
    ensures
        ({
            let e = next_context(ls, i);
            let r = rem.len() + kind_count(ls, i, e, LineKind::Removed);
            let a = add.len() + kind_count(ls, i, e, LineKind::Added);
            split_rows_from(fi, ls, i, rem, add).len() == (if r >= a { r } else { a }) + split_len(ls, e)
        }),
    decreases ls.len() - i,
{
    let e = next_context(ls, i);
    lemma_next_context(ls, i);
    if i >= ls.len() {
    } else if ls[i].kind == LineKind::Context {
        lemma_split_rows_len(fi, ls, i + 1, Seq::empty(), Seq::empty());
        lemma_split_len_unfold(ls, i + 1);
    } else if ls[i].kind == LineKind::Removed {
        lemma_split_rows_len(fi, ls, i + 1, rem.push(ls[i]), add);
    } else {
        lemma_split_rows_len(fi, ls, i + 1, rem, add.push(ls[i]));
    }
}

/// Split layout takes one row per context line and, for each maximal run of
/// changed lines, as many rows as the longer of its removed and added sides.
pub proof fn split_rows_count_law(fi: usize, ls: Seq<LineV>)
    ensures
        split_rows(fi, ls).len() == split_len(ls, 0),
{
    lemma_split_rows_len(fi, ls, 0, Seq::empty(), Seq::empty());
    lemma_split_len_unfold(ls, 0);
}

/// The reviewed count over a range of files is the number of `true` flags in
/// it: one file counts 1 exactly when it has a `true` flag (a missing flag
/// counts 0), counts over adjacent ranges add, and over flags that exist the
/// count is how many of them are `true`.
pub proof fn reviewed_count_law(viewed: Seq<bool>, a: int, b: int, c: int)
    ensures
        reviewed_between(viewed, a, a + 1) == (if 0 <= a < viewed.len() && viewed[a] { 1int } else { 0int }),
        a <= b <= c ==> reviewed_between(viewed, a, c) == reviewed_between(viewed, a, b) + reviewed_between(viewed, b, c),
        0 <= a <= b <= viewed.len() ==> reviewed_between(viewed, a, b) == viewed.subrange(a, b).filter(|x: bool| x).len(),
{
    assert(reviewed_between(viewed, a, a) == 0);
    lemma_reviewed_split(viewed, a, b, c);
    if 0 <= a <= b <= viewed.len() {
        lemma_reviewed_filter(viewed, a, b);
    }
}

proof fn lemma_reviewed_split(viewed: Seq<bool>, a: int, b: int, c: int)
    ensures
        a <= b <= c ==> reviewed_between(viewed, a, c) == reviewed_between(viewed, a, b) + reviewed_between(viewed, b, c),
    decreases c - b,
{
    if a <= b < c {
        lemma_reviewed_split(viewed, a, b, c - 1);
    }
}

proof fn lemma_reviewed_filter(viewed: Seq<bool>, a: int, b: int)
    requires
        0 <= a <= b <= viewed.len(),
    ensures
        reviewed_between(viewed, a, b) == viewed.subrange(a, b).filter(|x: bool| x).len(),
    decreases b - a,
{
    reveal(Seq::filter);
    let s = viewed.subrange(a, b);
    if a < b {
        lemma_reviewed_filter(viewed, a, b - 1);
        assert(s.drop_last() =~= viewed.subrange(a, b - 1));
        assert(s.last() == viewed[b - 1]);
    } else {
        assert(s.len() == 0);
    }
}

/// `dir_run` counts the files of the run starting at `fi`: every file of
/// `fi..fi + n` has parent directory `dir`, and the run stops at the end or at
/// a file with another directory.
pub proof fn dir_run_law(files: Seq<DiffFile>, fi: int, dir: Seq<char>)
    requires
        0 <= fi <= files.len(),
    ensures
        fi + dir_run(files, fi, dir) <= files.len(),
        forall|k: int| fi <= k < fi + dir_run(files, fi, dir) ==> parent_dir_spec(#[trigger] files[k].path@) == dir,
        fi + dir_run(files, fi, dir) == files.len()
            || parent_dir_spec(files[fi + dir_run(files, fi, dir)].path@) != dir,
    decreases files.len() - fi,
{
    if fi < files.len() && parent_dir_spec(files[fi].path@) == dir {
        dir_run_law(files, fi + 1, dir);
    }
}

/// A folded directory's first file stands for the whole run: its placeholder
/// names the directory, counts the run's files, and counts as reviewed
/// exactly the run's files with a `true` flag.
pub proof fn folded_placeholder_law(
    files: Seq<DiffFile>,
    viewed: Seq<bool>,
    split: bool,
    collapsed: Seq<Seq<char>>,
    fi: int,
)
    requires
        0 <= fi < files.len(),
        is_folded(collapsed, parent_dir_spec(files[fi].path@)),
        first_of_dir(files, fi),
    ensures
        ({
            let c = chunk(files, viewed, split, collapsed, fi);
            let dir = parent_dir_spec(files[fi].path@);
            let n = dir_run(files, fi, dir) as int;
            &&& !c.visible
            &&& c.rows.len() == 2
            &&& c.rows[1] == RowV::Spacer
            &&& c.rows[0] matches RowV::CollapsedDir { dir: d, n: m, reviewed: r } && {
                &&& d == dir
                &&& m == n as usize
                &&& r == reviewed_between(viewed, fi, fi + n) as usize
                &&& fi + n <= viewed.len() ==> r == viewed.subrange(fi, fi + n).filter(|x: bool| x).len() as usize
            }
        }),
{
    let dir = parent_dir_spec(files[fi].path@);
    let n = dir_run(files, fi, dir) as int;
    dir_run_law(files, fi, dir);
    if fi + n <= viewed.len() {
        lemma_reviewed_filter(viewed, fi, fi + n);
    }
}

} // verus!
