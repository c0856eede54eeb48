//! The normalized changeset model shared by the loaders, the row planner and
//! the navigation helpers.

use vstd::prelude::*;
use crate::text::{dec, push_decimal, push_str};

verus! {

/// The role a diff line plays in its hunk.
#[derive(Debug, Clone, Copy, PartialEq, Eq, Structural)]
pub enum LineKind {
    Context,
    Added,
    Removed,
}

/// Which layout the review stream is drawn in.
#[derive(Debug, Clone, Copy, PartialEq, Eq, Structural)]
pub enum LayoutMode {
    /// Side-by-side columns.
    Split,
    /// One unified column.
    Stack,
}

/// How a file changed.
#[derive(Debug, Clone, Copy, PartialEq, Eq, Structural)]
pub enum FileStatus {
    Modified,
    Added,
    Deleted,
    Renamed,
    Untracked,
}

/// Added/removed line totals of a file.
#[derive(Debug, Clone, Copy, PartialEq, Eq, Default, Structural)]
pub struct Stats {
    pub additions: usize,
    pub deletions: usize,
}

/// One line of a hunk. Line numbers are 1-based; a side the line does not
/// exist on carries `None`. `emphasis` is a char range `[start, end)` of the
/// text that changed within a paired removed/added line.
#[derive(Debug, Clone)]
pub struct Line {
    pub kind: LineKind,
    pub old_lineno: Option<u32>,
    pub new_lineno: Option<u32>,
    pub text: String,
    pub emphasis: Option<(u32, u32)>,
}

/// The abstract value of a [`Line`]: its fields with the text as characters.
pub struct LineV {
    pub kind: LineKind,
    pub old_lineno: Option<u32>,
    pub new_lineno: Option<u32>,
    pub text: Seq<char>,
    pub emphasis: Option<(u32, u32)>,
}

impl View for Line {
    type V = LineV;

    open spec fn view(&self) -> LineV {
        LineV {
            kind: self.kind,
            old_lineno: self.old_lineno,
            new_lineno: self.new_lineno,
            text: self.text@,
            emphasis: self.emphasis,
        }
    }
}

/// The views of a sequence of lines.
pub open spec fn lines_view(ls: Seq<Line>) -> Seq<LineV> {
    ls.map_values(|l: Line| l@)
}

/// The 1-based line number of a 0-based index.
pub open spec fn lineno(i: u32) -> Option<u32> {
    Some((i + 1) as u32)
}

impl Line {
    /// An unchanged line at 0-based index `o` (old side) and `n` (new side).
    pub fn context(text: String, o: u32, n: u32) -> (l: Line)
        requires
            o < u32::MAX,
            n < u32::MAX,
        ensures
            l.kind == LineKind::Context,
            l.old_lineno == lineno(o),
            l.new_lineno == lineno(n),
            l.text@ == text@,
            l.emphasis.is_none(),
    {
        Line { kind: LineKind::Context, old_lineno: Some(o + 1), new_lineno: Some(n + 1), text, emphasis: None }
    }

    /// A removed line at 0-based old-side index `o`.
    pub fn removed(text: String, o: u32) -> (l: Line)
        requires
            o < u32::MAX,
        ensures
            l.kind == LineKind::Removed,
            l.old_lineno == lineno(o),
            l.new_lineno.is_none(),
            l.text@ == text@,
            l.emphasis.is_none(),
    {
        Line { kind: LineKind::Removed, old_lineno: Some(o + 1), new_lineno: None, text, emphasis: None }
    }

    /// An added line at 0-based new-side index `n`.
    pub fn added(text: String, n: u32) -> (l: Line)
        requires
            n < u32::MAX,
        ensures
            l.kind == LineKind::Added,
            l.old_lineno.is_none(),
            l.new_lineno == lineno(n),
            l.text@ == text@,
            l.emphasis.is_none(),
    {
        Line { kind: LineKind::Added, old_lineno: None, new_lineno: Some(n + 1), text, emphasis: None }
    }
}

/// A contiguous region of change with its surrounding context. `old_start` /
/// `new_start` are 1-based (0 when the side is empty), as in a `@@` header.
#[derive(Debug, Clone)]
pub struct Hunk {
    pub old_start: u32,
    pub old_len: u32,
    pub new_start: u32,
    pub new_len: u32,
    pub lines: Vec<Line>,
}

/// The abstract value of a [`Hunk`].
pub struct HunkV {
    pub old_start: u32,
    pub old_len: u32,
    pub new_start: u32,
    pub new_len: u32,
    pub lines: Seq<LineV>,
}

impl View for Hunk {
    type V = HunkV;

    open spec fn view(&self) -> HunkV {
        HunkV {
            old_start: self.old_start,
            old_len: self.old_len,
            new_start: self.new_start,
            new_len: self.new_len,
            lines: lines_view(self.lines@),
        }
    }
}

/// The views of a sequence of hunks.
pub open spec fn hunks_view(hs: Seq<Hunk>) -> Seq<HunkV> {
    hs.map_values(|h: Hunk| h@)
}

/// The views of a sequence of strings.
pub open spec fn strs_view(v: Seq<String>) -> Seq<Seq<char>> {
    v.map_values(|s: String| s@)
}

/// One side of a `@@` range: `start` alone when the side spans exactly one
/// line, `start,len` otherwise (git's unified-diff convention).
pub open spec fn header_range(start: u32, len: u32) -> Seq<char> {
    if len == 1 {
        dec(start as nat)
    } else {
        dec(start as nat) + seq![','] + dec(len as nat)
    }
}

/// The full `@@ -old +new @@` header line of a hunk.
pub open spec fn header_spec(old_start: u32, old_len: u32, new_start: u32, new_len: u32) -> Seq<char> {
    seq!['@', '@', ' ', '-'] + header_range(old_start, old_len) + seq![' ', '+']
        + header_range(new_start, new_len) + seq![' ', '@', '@']
}

fn push_range(s: &mut String, start: u32, len: u32)
    ensures
        final(s)@ == old(s)@ + header_range(start, len),
{
    push_decimal(s, start as u64);
    if len != 1 {
        push_str(s, ",");
        push_decimal(s, len as u64);
    }
    proof {
        reveal_strlit(",");
    }
    assert(final(s)@ =~= old(s)@ + header_range(start, len));
}

impl Hunk {
    /// The unified-diff `@@` header for this hunk.
    pub fn header(&self) -> (h: String)
        ensures
            h@ == header_spec(self.old_start, self.old_len, self.new_start, self.new_len),
    {
        let mut s = String::new();
        push_str(&mut s, "@@ -");
        push_range(&mut s, self.old_start, self.old_len);
        push_str(&mut s, " +");
        push_range(&mut s, self.new_start, self.new_len);
        push_str(&mut s, " @@");
        proof {
            reveal_strlit("@@ -");
            reveal_strlit(" +");
            reveal_strlit(" @@");
        }
        assert(s@ =~= header_spec(self.old_start, self.old_len, self.new_start, self.new_len));
        s
    }
}

/// One file of a changeset.
#[derive(Debug, Clone)]
pub struct DiffFile {
    pub path: String,
    pub previous_path: Option<String>,
    pub status: FileStatus,
    pub staged: bool,
    pub hunks: Vec<Hunk>,
    pub stats: Stats,
    pub language: Option<String>,
    pub is_binary: bool,
    pub old_text: Option<String>,
    pub new_text: Option<String>,
    /// Whether the body has been diffed yet (streaming loads fill it in later).
    pub diffed: bool,
}

impl DiffFile {
    /// An enumerated, not-yet-diffed file: no hunks, zero stats.
    pub fn stub(
        path: String,
        previous_path: Option<String>,
        status: FileStatus,
        staged: bool,
        language: Option<String>,
    ) -> (f: DiffFile)
        ensures
            f.path == path,
            f.previous_path == previous_path,
            f.status == status,
            f.staged == staged,
            f.language == language,
            f.hunks@.len() == 0,
            f.stats == (Stats { additions: 0, deletions: 0 }),
            !f.is_binary,
            f.old_text.is_none(),
            f.new_text.is_none(),
            !f.diffed,
    {
        DiffFile {
            path,
            previous_path,
            status,
            staged,
            hunks: Vec::new(),
            stats: Stats { additions: 0, deletions: 0 },
            language,
            is_binary: false,
            old_text: None,
            new_text: None,
            diffed: false,
        }
    }
}

/// Where one side of an enumerated file comes from.
#[derive(Debug, Clone)]
pub enum Side {
    /// The side does not exist (added or deleted file).
    Absent,
    /// A blob in the object database, by hex object id.
    Blob(String),
    /// The file as it currently is in the working tree.
    Worktree,
}

/// An enumerated file whose diff has not been computed yet.
#[derive(Debug, Clone)]
pub struct FileStub {
    pub path: String,
    pub previous_path: Option<String>,
    pub status: FileStatus,
    pub staged: bool,
    pub language: Option<String>,
    pub old: Side,
    pub new: Side,
}

/// A set of changed files from one source (working tree, a commit, a range).
#[derive(Debug, Clone)]
pub struct Changeset {
    pub source: String,
    pub files: Vec<DiffFile>,
}

/// Index of the last `/` in `p`, if any.
pub open spec fn last_slash(p: Seq<char>) -> Option<int>
    decreases p.len(),
{
    if p.len() == 0 {
        None
    } else if p.last() == '/' {
        Some(p.len() - 1)
    } else {
        last_slash(p.drop_last())
    }
}

/// The parent directory of a repo-relative path: everything before the last
/// `/`, or the empty string for a top-level file.
pub open spec fn parent_dir_spec(p: Seq<char>) -> Seq<char> {
    match last_slash(p) {
        Some(i) => p.take(i),
        None => Seq::empty(),
    }
}

/// The parent directory of `path` (see [`parent_dir_spec`]).
pub fn parent_dir(path: &str) -> (d: String)
    ensures
        d@ == parent_dir_spec(path@),
{
    let cs = crate::text::chars_of(path);
    let mut i: usize = cs.len();
    assert(cs@.take(i as int) =~= cs@);
    while i > 0
        invariant
            i <= cs@.len(),
            cs@ == path@,
            last_slash(path@) == last_slash(cs@.take(i as int)),
        decreases i,
    {
        if cs[i - 1] == '/' {
            assert(cs@.take(i as int).last() == '/');
            let r = crate::text::string_of_range(cs.as_slice(), 0, i - 1);
            proof {
                assert(last_slash(cs@.take(i as int)) == Some(i - 1));
                assert(cs@.subrange(0, i - 1) =~= path@.take(i - 1));
            }
            return r;
        }
        assert(cs@.take(i as int).drop_last() =~= cs@.take(i - 1));
        i = i - 1;
    }
    assert(cs@.take(0) =~= Seq::<char>::empty());
    String::new()
}

} // verus!
