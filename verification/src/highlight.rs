//! Syntax highlighting results: per-line styled spans, and the pure steps of
//! producing them. tree-sitter is primary for bundled languages, syntect the
//! breadth fallback, plain text otherwise; the engines themselves are driven
//! by the caller, which hands their output (highlight events, styled ranges)
//! to the functions here.

use vstd::prelude::*;
use crate::text::{chars_of, str_eq, string_of};

verus! {

/// An RGB color for a styled run.
pub type Rgb = (u8, u8, u8);

/// How a styled run is colored. Tree-sitter spans carry a theme-independent
/// capture index (resolved at render time against the active theme's table),
/// so switching themes recolors cached content with no re-highlight. The
/// syntect path bakes a concrete color (`Fixed`), and everything else falls
/// back to the theme's default foreground (`Default`).
#[derive(Debug, Clone, Copy, PartialEq, Eq)]
pub enum Paint {
    /// Index into the active theme's capture-color table.
    Capture(u16),
    /// The active theme's default foreground.
    Default,
    /// An already-resolved color (syntect-highlighted run).
    Fixed(Rgb),
}

/// A styled run of text within a single line.
#[derive(Debug, Clone)]
pub struct Span {
    pub text: String,
    pub paint: Paint,
}

/// The abstract value of a [`Span`].
pub struct SpanV {
    pub text: Seq<char>,
    pub paint: Paint,
}

impl View for Span {
    type V = SpanV;

    open spec fn view(&self) -> SpanV {
        SpanV { text: self.text@, paint: self.paint }
    }
}

/// The views of a line's spans.
pub open spec fn spans_view(s: Seq<Span>) -> Seq<SpanV> {
    s.map_values(|x: Span| x@)
}

/// The views of per-line spans.
pub open spec fn span_lines_view(ls: Seq<Vec<Span>>) -> Seq<Seq<SpanV>> {
    ls.map_values(|l: Vec<Span>| spans_view(l@))
}

/// Highlighting for both sides of a file's diff (index 0 is file line 1).
#[derive(Debug)]
pub struct FileHighlight {
    pub old: Vec<Vec<Span>>,
    pub new: Vec<Vec<Span>>,
    /// Whether these spans carry theme-baked colors (`Paint::Fixed`, the
    /// syntect path) and must be recomputed when the active theme changes.
    /// Tree-sitter and plain results are theme-independent.
    pub theme_dependent: bool,
}

impl Default for FileHighlight {
    fn default() -> (h: FileHighlight)
        ensures
            h.old@.len() == 0,
            h.new@.len() == 0,
            !h.theme_dependent,
    {
        FileHighlight { old: Vec::new(), new: Vec::new(), theme_dependent: false }
    }
}

impl FileHighlight {
    /// Spans for a 1-based line on the given side, if available.
    pub fn line(&self, side_new: bool, lineno: u32) -> (r: Option<&[Span]>)
        ensures
            ({
                let lines = if side_new { self.new@ } else { self.old@ };
                &&& r is Some <==> 1 <= lineno <= lines.len()
                &&& r matches Some(s) ==> s@ == lines[lineno - 1]@
            }),
    {
        let lines = if side_new { &self.new } else { &self.old };
        if lineno >= 1 && ((lineno - 1) as usize) < lines.len() {
            Some(lines[(lineno - 1) as usize].as_slice())
        } else {
            None
        }
    }
}

/// `s` split at each `'\n'` (the separators dropped): one more part than
/// there are newlines, empty parts included.
pub open spec fn split_nl(s: Seq<char>) -> Seq<Seq<char>>
    decreases s.len(),
{
    if s.len() == 0 {
        seq![Seq::empty()]
    } else {
        let rest = split_nl(s.drop_last());
        if s.last() == '\n' {
            rest.push(Seq::empty())
        } else {
            rest.update(rest.len() - 1, rest.last().push(s.last()))
        }
    }
}

/// `split_nl` always yields at least one part.
pub proof fn lemma_split_nl_len(s: Seq<char>)
    ensures
        split_nl(s).len() >= 1,
    decreases s.len(),
{
    if s.len() > 0 {
        lemma_split_nl_len(s.drop_last());
    }
}

/// How `split_nl` extends by one character.
proof fn lemma_split_nl_push(s: Seq<char>, c: char)
    ensures
        split_nl(s).len() >= 1,
        split_nl(s.push(c)) == (if c == '\n' {
            split_nl(s).push(Seq::empty())
        } else {
            split_nl(s).update(split_nl(s).len() - 1, split_nl(s).last().push(c))
        }),
{
    lemma_split_nl_len(s);
    assert(s.push(c).drop_last() =~= s);
}

/// `s` without its trailing `'\r'`s.
pub open spec fn trim_cr(s: Seq<char>) -> Seq<char>
    decreases s.len(),
{
    if s.len() > 0 && s.last() == '\r' {
        trim_cr(s.drop_last())
    } else {
        s
    }
}

/// A line's single default-foreground span (none for an empty line).
pub open spec fn plain_line(l: Seq<char>) -> Seq<SpanV> {
    let t = trim_cr(l);
    if t.len() == 0 { Seq::empty() } else { seq![SpanV { text: t, paint: Paint::Default }] }
}

/// The plain highlighting of `text`: per `'\n'`-separated line (trailing
/// `'\r'`s dropped), one default-foreground span, or none for an empty line.
pub open spec fn plain_spec(text: Seq<char>) -> Seq<Seq<SpanV>> {
    split_nl(text).map_values(|l: Seq<char>| plain_line(l))
}

/// The characters `cs` without trailing `'\r'`s, as a new vector.
fn trimmed_cr(cs: &Vec<char>) -> (r: Vec<char>)
    ensures
        r@ == trim_cr(cs@),
{
    let mut n: usize = cs.len();
    assert(cs@.take(n as int) =~= cs@);
    while n > 0 && cs[n - 1] == '\r'
        invariant
            n <= cs@.len(),
            trim_cr(cs@) == trim_cr(cs@.take(n as int)),
        decreases n,
    {
        assert(cs@.take(n as int).drop_last() =~= cs@.take(n - 1));
        n = n - 1;
    }
    let mut r: Vec<char> = Vec::new();
    let mut i: usize = 0;
    while i < n
        invariant
            i <= n <= cs@.len(),
            r@ == cs@.take(i as int),
        decreases n - i,
    {
        r.push(cs[i]);
        i = i + 1;
        assert(cs@.take(i as int) =~= cs@.take(i - 1).push(cs@[i - 1]));
    }
    proof {
        let t = cs@.take(n as int);
        if n > 0 {
            assert(t.last() == cs@[n - 1]);
        }
        assert(trim_cr(t) == t);
    }
    r
}

/// One default-foreground span per line: the no-highlighter fallback (see
/// [`plain_spec`]). Theme-independent: the color is resolved at render time.
pub fn plain(text: &str) -> (r: Vec<Vec<Span>>)
    ensures
        span_lines_view(r@) == plain_spec(text@),
{
    let cs = chars_of(text);
    let mut out: Vec<Vec<Span>> = Vec::new();
    let mut pending: Vec<char> = Vec::new();
    let mut i: usize = 0;
    proof {
        assert(cs@.take(0) =~= Seq::<char>::empty());
    }
    while i < cs.len()
        invariant
            i <= cs@.len(),
            cs@ == text@,
            split_nl(cs@.take(i as int)).len() >= 1,
            pending@ == split_nl(cs@.take(i as int)).last(),
            span_lines_view(out@) == split_nl(cs@.take(i as int)).drop_last().map_values(|l: Seq<char>| plain_line(l)),
        decreases cs@.len() - i,
    {
        let c = cs[i];
        proof {
            lemma_split_nl_push(cs@.take(i as int), c);
            assert(cs@.take(i + 1) =~= cs@.take(i as int).push(c));
        }
        let ghost parts = split_nl(cs@.take(i as int));
        if c == '\n' {
            let line = plain_line_of(&pending);
            let ghost before = span_lines_view(out@);
            out.push(line);
            pending = Vec::new();
            proof {
                assert(span_lines_view(out@) =~= before.push(spans_view(line@)));
                assert(parts =~= parts.drop_last().push(parts.last()));
                assert(span_lines_view(out@) =~= parts.map_values(|l: Seq<char>| plain_line(l)));
                assert(parts.push(Seq::<char>::empty()).drop_last() =~= parts);
            }
        } else {
            pending.push(c);
            proof {
                let np = parts.update(parts.len() - 1, parts.last().push(c));
                assert(np.drop_last() =~= parts.drop_last());
            }
        }
        i = i + 1;
    }
    let line = plain_line_of(&pending);
    let ghost before = span_lines_view(out@);
    out.push(line);
    proof {
        assert(span_lines_view(out@) =~= before.push(spans_view(line@)));
        assert(cs@.take(cs@.len() as int) =~= cs@);
        let parts = split_nl(cs@);
        assert(parts =~= parts.drop_last().push(parts.last()));
        assert(span_lines_view(out@) =~= plain_spec(text@));
    }
    out
}

/// The [`plain_line`] spans of one line's characters.
fn plain_line_of(cs: &Vec<char>) -> (r: Vec<Span>)
    ensures
        spans_view(r@) == plain_line(cs@),
{
    let t = trimmed_cr(cs);
    let mut r: Vec<Span> = Vec::new();
    if t.len() > 0 {
        let s = string_of(t.as_slice());
        r.push(Span { text: s, paint: Paint::Default });
        assert(spans_view(r@) =~= plain_line(cs@));
    } else {
        assert(spans_view(r@) =~= plain_line(cs@));
    }
    r
}

/// One tree-sitter highlight event, its source text already cut out.
pub enum HlEvent {
    /// A capture (by index) starts.
    Start(usize),
    /// The innermost capture ends.
    End,
    /// A run of source text under the current captures.
    Source(String),
    /// The highlighter reported an error.
    Failed,
}

/// The abstract value of an [`HlEvent`].
pub enum HlEventV {
    Start(usize),
    End,
    Source(Seq<char>),
    Failed,
}

impl View for HlEvent {
    type V = HlEventV;

    open spec fn view(&self) -> HlEventV {
        match self {
            HlEvent::Start(h) => HlEventV::Start(*h),
            HlEvent::End => HlEventV::End,
            HlEvent::Source(s) => HlEventV::Source(s@),
            HlEvent::Failed => HlEventV::Failed,
        }
    }
}

/// The views of a list of events.
pub open spec fn events_view(es: Seq<HlEvent>) -> Seq<HlEventV> {
    es.map_values(|e: HlEvent| e@)
}

/// `cur` with a span of `t` appended, unless `t` is empty.
pub open spec fn add_part(cur: Seq<SpanV>, t: Seq<char>, paint: Paint) -> Seq<SpanV> {
    if t.len() == 0 { cur } else { cur.push(SpanV { text: t, paint: paint }) }
}

/// Lay out `parts` (a text run split at its newlines) from the finished
/// `lines` and the open line `cur`: the first part joins the open line, each
/// later one closes it and opens a new line.
pub open spec fn run_parts(lines: Seq<Seq<SpanV>>, cur: Seq<SpanV>, parts: Seq<Seq<char>>, paint: Paint)
    -> (Seq<Seq<SpanV>>, Seq<SpanV>)
    decreases parts.len(),
{
    if parts.len() == 0 {
        (lines, cur)
    } else if parts.len() == 1 {
        (lines, add_part(cur, parts[0], paint))
    } else {
        let (l, c) = run_parts(lines, cur, parts.drop_last(), paint);
        (l.push(c), add_part(Seq::empty(), parts.last(), paint))
    }
}

/// The layout of `parts` equals that of its last part left empty, then the
/// last part added to the open line.
proof fn lemma_run_last(lines: Seq<Seq<SpanV>>, cur: Seq<SpanV>, parts: Seq<Seq<char>>, paint: Paint)
    requires
        parts.len() >= 1,
    ensures
        ({
            let (l0, c0) = run_parts(lines, cur, parts.drop_last().push(Seq::empty()), paint);
            run_parts(lines, cur, parts, paint) == (l0, add_part(c0, parts.last(), paint))
        }),
{
    assert(parts.drop_last().push(Seq::<char>::empty()).drop_last() =~= parts.drop_last());
}

/// Appending an empty part closes the open line.
proof fn lemma_run_push_empty(lines: Seq<Seq<SpanV>>, cur: Seq<SpanV>, parts: Seq<Seq<char>>, paint: Paint)
    requires
        parts.len() >= 1,
    ensures
        ({
            let (l, c) = run_parts(lines, cur, parts, paint);
            run_parts(lines, cur, parts.push(Seq::empty()), paint) == (l.push(c), Seq::<SpanV>::empty())
        }),
{
    assert(parts.push(Seq::<char>::empty()).drop_last() =~= parts);
}

/// Add the span of pending characters `part` (if any) to `cur`.
fn close_part(cur: &mut Vec<Span>, part: &Vec<char>, paint: Paint)
    ensures
        spans_view(final(cur)@) == add_part(spans_view(old(cur)@), part@, paint),
{
    if part.len() > 0 {
        let s = string_of(part.as_slice());
        let ghost before = spans_view(cur@);
        cur.push(Span { text: s, paint: paint });
        assert(spans_view(cur@) =~= before.push(SpanV { text: part@, paint: paint }));
    }
}

/// Feed a run of source text under `paint` into the finished `lines` and the
/// open line `cur` (see [`run_parts`] over the run's [`split_nl`] parts).
fn feed_piece(lines: &mut Vec<Vec<Span>>, cur: &mut Vec<Span>, piece: &str, paint: Paint)
    ensures
        (span_lines_view(final(lines)@), spans_view(final(cur)@))
            == run_parts(span_lines_view(old(lines)@), spans_view(old(cur)@), split_nl(piece@), paint),
{
    let ghost l0 = span_lines_view(lines@);
    let ghost c0 = spans_view(cur@);
    let cs = chars_of(piece);
    let mut part: Vec<char> = Vec::new();
    let mut i: usize = 0;
    proof {
        assert(cs@.take(0) =~= Seq::<char>::empty());
        assert(split_nl(Seq::<char>::empty()).drop_last().push(Seq::<char>::empty()) =~= seq![Seq::<char>::empty()]);
    }
    while i < cs.len()
        invariant
            i <= cs@.len(),
            cs@ == piece@,
            split_nl(cs@.take(i as int)).len() >= 1,
            part@ == split_nl(cs@.take(i as int)).last(),
            (span_lines_view(lines@), spans_view(cur@))
                == run_parts(l0, c0, split_nl(cs@.take(i as int)).drop_last().push(Seq::empty()), paint),
        decreases cs@.len() - i,
    {
        let c = cs[i];
        let ghost parts = split_nl(cs@.take(i as int));
        proof {
            lemma_split_nl_push(cs@.take(i as int), c);
            assert(cs@.take(i + 1) =~= cs@.take(i as int).push(c));
        }
        if c == '\n' {
            proof {
                lemma_run_last(l0, c0, parts, paint);
                lemma_run_push_empty(l0, c0, parts, paint);
                assert(parts.push(Seq::<char>::empty()).drop_last().push(Seq::<char>::empty())
                    =~= parts.push(Seq::<char>::empty()));
            }
            close_part(cur, &part, paint);
            let mut done: Vec<Span> = Vec::new();
            std::mem::swap(&mut done, cur);
            let ghost before = span_lines_view(lines@);
            lines.push(done);
            part = Vec::new();
            proof {
                assert(span_lines_view(lines@) =~= before.push(spans_view(done@)));
                assert(spans_view(cur@) =~= Seq::<SpanV>::empty());
            }
        } else {
            part.push(c);
            proof {
                let np = parts.update(parts.len() - 1, parts.last().push(c));
                assert(np.drop_last() =~= parts.drop_last());
            }
        }
        i = i + 1;
    }
    proof {
        assert(cs@.take(cs@.len() as int) =~= cs@);
        lemma_run_last(l0, c0, split_nl(cs@), paint);
    }
    close_part(cur, &part, paint);
}

/// The highlighter state after the first `n` events: the finished lines, the
/// open line and the capture stack; `None` once an event reports failure. A
/// text run is painted with the innermost capture (default foreground when
/// none is open); an end with no open capture changes nothing.
pub struct HlState {
    pub lines: Seq<Seq<SpanV>>,
    pub cur: Seq<SpanV>,
    pub stack: Seq<usize>,
}

/// The paint of a text run under the capture `stack`.
pub open spec fn paint_of(stack: Seq<usize>) -> Paint {
    if stack.len() > 0 { Paint::Capture(stack.last() as u16) } else { Paint::Default }
}

/// See [`HlState`].
pub open spec fn fold_events(evs: Seq<HlEventV>, n: int) -> Option<HlState>
    decreases n,
{
    if n <= 0 {
        Some(HlState { lines: Seq::empty(), cur: Seq::empty(), stack: Seq::empty() })
    } else {
        match fold_events(evs, n - 1) {
            None => None,
            Some(st) => match evs[n - 1] {
                HlEventV::Start(h) => Some(HlState { stack: st.stack.push(h), ..st }),
                HlEventV::End => Some(HlState {
                    stack: if st.stack.len() > 0 { st.stack.drop_last() } else { st.stack },
                    ..st
                }),
                HlEventV::Source(p) => {
                    let (l, c) = run_parts(st.lines, st.cur, split_nl(p), paint_of(st.stack));
                    Some(HlState { lines: l, cur: c, ..st })
                },
                HlEventV::Failed => None,
            },
        }
    }
}

/// Once failed, the fold stays failed.
proof fn lemma_fold_none(evs: Seq<HlEventV>, n: int, m: int)
    requires
        n <= m,
        fold_events(evs, n) is None,
    ensures
        fold_events(evs, m) is None,
    decreases m - n,
{
    if n < m {
        lemma_fold_none(evs, n, m - 1);
    }
}

/// The lines of a tree-sitter highlight of `text` given its events: the
/// finished lines then the open one, or the [`plain_spec`] fallback when the
/// highlighter failed.
pub open spec fn ts_lines_spec(text: Seq<char>, evs: Seq<HlEventV>) -> Seq<Seq<SpanV>> {
    match fold_events(evs, evs.len() as int) {
        Some(st) => st.lines.push(st.cur),
        None => plain_spec(text),
    }
}

/// Lay out tree-sitter highlight `events` for `text` into per-line spans
/// (see [`ts_lines_spec`]): capture spans carry the innermost capture's
/// index, a run's newlines break lines, and a failure falls back to
/// [`plain`].
pub fn lines_from_events(text: &str, events: &[HlEvent]) -> (r: Vec<Vec<Span>>)
    ensures
        span_lines_view(r@) == ts_lines_spec(text@, events_view(events@)),
{
    let ghost evs = events_view(events@);
    let mut lines: Vec<Vec<Span>> = Vec::new();
    let mut cur: Vec<Span> = Vec::new();
    let mut stack: Vec<usize> = Vec::new();
    let mut k: usize = 0;
    assert(span_lines_view(lines@) =~= Seq::<Seq<SpanV>>::empty());
    assert(spans_view(cur@) =~= Seq::<SpanV>::empty());
    while k < events.len()
        invariant
            k <= events@.len(),
            evs == events_view(events@),
            fold_events(evs, k as int) == Some(HlState {
                lines: span_lines_view(lines@),
                cur: spans_view(cur@),
                stack: stack@,
            }),
        decreases events@.len() - k,
    {
        assert(evs[k as int] == events@[k as int]@);
        match &events[k] {
            HlEvent::Start(h) => {
                stack.push(*h);
            }
            HlEvent::End => {
                let _ = stack.pop();
            }
            HlEvent::Source(p) => {
                let paint = if stack.len() > 0 {
                    Paint::Capture(stack[stack.len() - 1] as u16)
                } else {
                    Paint::Default
                };
                feed_piece(&mut lines, &mut cur, p.as_str(), paint);
            }
            HlEvent::Failed => {
                proof {
                    lemma_fold_none(evs, k + 1, evs.len() as int);
                }
                return plain(text);
            }
        }
        k = k + 1;
    }
    let ghost before = span_lines_view(lines@);
    let c = cur;
    lines.push(c);
    assert(span_lines_view(lines@) =~= before.push(spans_view(c@)));
    lines
}

/// `s` without its trailing `'\n'`s and `'\r'`s.
pub open spec fn trim_eol_chars(s: Seq<char>) -> Seq<char>
    decreases s.len(),
{
    if s.len() > 0 && (s.last() == '\n' || s.last() == '\r') {
        trim_eol_chars(s.drop_last())
    } else {
        s
    }
}

/// `s` without trailing line-end characters, as a new string.
fn trimmed_eol(s: &str) -> (r: String)
    ensures
        r@ == trim_eol_chars(s@),
{
    let cs = chars_of(s);
    let mut n: usize = cs.len();
    assert(cs@.take(n as int) =~= cs@);
    while n > 0 && (cs[n - 1] == '\n' || cs[n - 1] == '\r')
        invariant
            n <= cs@.len(),
            trim_eol_chars(cs@) == trim_eol_chars(cs@.take(n as int)),
        decreases n,
    {
        assert(cs@.take(n as int).drop_last() =~= cs@.take(n - 1));
        n = n - 1;
    }
    let r = crate::text::string_of_range(cs.as_slice(), 0, n);
    proof {
        let t = cs@.take(n as int);
        assert(cs@.subrange(0, n as int) =~= t);
        if n > 0 {
            assert(t.last() == cs@[n - 1]);
        }
        assert(trim_eol_chars(t) == t);
    }
    r
}

/// The spans of one syntect-highlighted line: each styled range's text
/// without line-end characters, in its baked color; empty ranges dropped.
pub open spec fn syntect_spans_spec(ranges: Seq<(Rgb, Seq<char>)>) -> Seq<SpanV>
    decreases ranges.len(),
{
    if ranges.len() == 0 {
        Seq::empty()
    } else {
        let (c, t) = ranges.last();
        add_part(syntect_spans_spec(ranges.drop_last()), trim_eol_chars(t), Paint::Fixed(c))
    }
}

/// The views of styled ranges.
pub open spec fn ranges_view(rs: Seq<(Rgb, String)>) -> Seq<(Rgb, Seq<char>)> {
    rs.map_values(|r: (Rgb, String)| (r.0, r.1@))
}

/// The spans of one syntect-highlighted line from its styled ranges (see
/// [`syntect_spans_spec`]).
pub fn syntect_spans(ranges: &[(Rgb, String)]) -> (r: Vec<Span>)
    ensures
        spans_view(r@) == syntect_spans_spec(ranges_view(ranges@)),
{
    let ghost rv = ranges_view(ranges@);
    let mut out: Vec<Span> = Vec::new();
    let mut k: usize = 0;
    assert(spans_view(out@) =~= Seq::<SpanV>::empty());
    while k < ranges.len()
        invariant
            k <= ranges@.len(),
            rv == ranges_view(ranges@),
            spans_view(out@) == syntect_spans_spec(rv.take(k as int)),
        decreases ranges@.len() - k,
    {
        let (c, t) = (ranges[k].0, &ranges[k].1);
        let text = trimmed_eol(t.as_str());
        assert(rv.take(k + 1).drop_last() =~= rv.take(k as int));
        if text.as_str().unicode_len() > 0 {
            let ghost before = spans_view(out@);
            out.push(Span { text: text, paint: Paint::Fixed(c) });
            assert(spans_view(out@) =~= before.push(SpanV { text: text@, paint: Paint::Fixed(c) }));
        }
        k = k + 1;
    }
    assert(rv.take(rv.len() as int) =~= rv);
    out
}

/// The span of a line syntect failed on: the whole line without line-end
/// characters, in the theme's default foreground `fg`.
pub fn syntect_fallback(line: &str, fg: Rgb) -> (r: Vec<Span>)
    ensures
        spans_view(r@) == seq![SpanV { text: trim_eol_chars(line@), paint: Paint::Fixed(fg) }],
{
    let text = trimmed_eol(line);
    let mut out: Vec<Span> = Vec::new();
    out.push(Span { text: text, paint: Paint::Fixed(fg) });
    assert(spans_view(out@) =~= seq![SpanV { text: trim_eol_chars(line@), paint: Paint::Fixed(fg) }]);
    out
}

/// The bundled tree-sitter configuration for a language id, if any.
pub open spec fn ts_key_spec(lang: Seq<char>) -> Option<Seq<char>> {
    if lang == "rust"@ {
        Some("rust"@)
    } else if lang == "tsx"@ {
        Some("tsx"@)
    } else if lang == "typescript"@ {
        Some("typescript"@)
    } else if lang == "javascript"@ || lang == "jsx"@ {
        Some("javascript"@)
    } else {
        None
    }
}

/// Resolve a language id to a bundled tree-sitter configuration key.
pub fn ts_key(lang: &str) -> (r: Option<&'static str>)
    ensures
        r matches Some(k) ==> ts_key_spec(lang@) == Some(k@),
        r is None ==> ts_key_spec(lang@) is None,
{
    proof {
        reveal_strlit("rust");
        reveal_strlit("tsx");
        reveal_strlit("typescript");
        reveal_strlit("javascript");
        reveal_strlit("jsx");
    }
    if crate::text::str_eq(lang, "rust") {
        Some("rust")
    } else if crate::text::str_eq(lang, "tsx") {
        Some("tsx")
    } else if crate::text::str_eq(lang, "typescript") {
        Some("typescript")
    } else if crate::text::str_eq(lang, "javascript") || crate::text::str_eq(lang, "jsx") {
        Some("javascript")
    } else {
        None
    }
}

/// The TextMate scope a tree-sitter capture key (the part of a capture name
/// before its first `.`) is colored by; empty for the theme's default
/// foreground.
pub open spec fn capture_scope_spec(key: Seq<char>) -> Seq<char> {
    if key == "keyword"@ {
        "keyword"@
    } else if key == "string"@ {
        "string"@
    } else if key == "escape"@ {
        "constant.character.escape"@
    } else if key == "comment"@ {
        "comment"@
    } else if key == "function"@ || key == "constructor"@ {
        "entity.name.function"@
    } else if key == "type"@ {
        "entity.name.type"@
    } else if key == "number"@ {
        "constant.numeric"@
    } else if key == "constant"@ {
        "constant"@
    } else if key == "property"@ || key == "attribute"@ || key == "label"@ {
        "variable.other.member"@
    } else if key == "tag"@ {
        "entity.name.tag"@
    } else if key == "module"@ {
        "entity.name.namespace"@
    } else if key == "variable"@ {
        "variable"@
    } else {
        ""@
    }
}

/// Map a tree-sitter capture key to a TextMate scope, resolved against the
/// active theme (see [`capture_scope_spec`]); `""` means "use the theme's
/// default foreground".
pub fn capture_scope(key: &str) -> (r: &'static str)
    ensures
        r@ == capture_scope_spec(key@),
{
    proof {
        reveal_strlit("attribute");
        reveal_strlit("comment");
        reveal_strlit("constant");
        reveal_strlit("constant.character.escape");
        reveal_strlit("constant.numeric");
        reveal_strlit("constructor");
        reveal_strlit("entity.name.function");
        reveal_strlit("entity.name.namespace");
        reveal_strlit("entity.name.tag");
        reveal_strlit("entity.name.type");
        reveal_strlit("escape");
        reveal_strlit("function");
        reveal_strlit("keyword");
        reveal_strlit("label");
        reveal_strlit("module");
        reveal_strlit("number");
        reveal_strlit("property");
        reveal_strlit("string");
        reveal_strlit("tag");
        reveal_strlit("type");
        reveal_strlit("variable");
        reveal_strlit("variable.other.member");
        reveal_strlit("");
    }
    if str_eq(key, "keyword") {
        "keyword"
    } else if str_eq(key, "string") {
        "string"
    } else if str_eq(key, "escape") {
        "constant.character.escape"
    } else if str_eq(key, "comment") {
        "comment"
    } else if str_eq(key, "function") || str_eq(key, "constructor") {
        "entity.name.function"
    } else if str_eq(key, "type") {
        "entity.name.type"
    } else if str_eq(key, "number") {
        "constant.numeric"
    } else if str_eq(key, "constant") {
        "constant"
    } else if str_eq(key, "property") || str_eq(key, "attribute") || str_eq(key, "label") {
        "variable.other.member"
    } else if str_eq(key, "tag") {
        "entity.name.tag"
    } else if str_eq(key, "module") {
        "entity.name.namespace"
    } else if str_eq(key, "variable") {
        "variable"
    } else {
        ""
    }
}

/// The index of the first `.` in `s` at or after `i` (`s.len()` when none).
pub open spec fn first_dot_from(s: Seq<char>, i: int) -> int
    decreases s.len() - i,
{
    if i < 0 || i >= s.len() {
        s.len() as int
    } else if s[i] == '.' {
        i
    } else {
        first_dot_from(s, i + 1)
    }
}

/// The TextMate scope a tree-sitter capture name is colored by: that of its
/// key, the part before its first `.` (see [`capture_scope_spec`]).
pub fn scope_for_capture(name: &str) -> (r: &'static str)
    ensures
        r@ == capture_scope_spec(name@.take(first_dot_from(name@, 0))),
{
    let cs = chars_of(name);
    let mut i: usize = 0;
    while i < cs.len() && cs[i] != '.'
        invariant
            i <= cs@.len(),
            cs@ == name@,
            first_dot_from(cs@, 0) == first_dot_from(cs@, i as int),
        decreases cs@.len() - i,
    {
        i = i + 1;
    }
    let key = crate::text::string_of_range(cs.as_slice(), 0, i);
    assert(cs@.subrange(0, i as int) =~= cs@.take(i as int));
    capture_scope(key.as_str())
}

/// No span of the line bakes a theme color.
pub open spec fn line_unbaked(l: Seq<SpanV>) -> bool {
    forall|j: int| 0 <= j < l.len() ==> !((#[trigger] l[j]).paint is Fixed)
}

/// No span of any line bakes a theme color.
pub open spec fn lines_unbaked(ls: Seq<Seq<SpanV>>) -> bool {
    forall|i: int| 0 <= i < ls.len() ==> line_unbaked(#[trigger] ls[i])
}

proof fn lemma_run_parts_unbaked(lines: Seq<Seq<SpanV>>, cur: Seq<SpanV>, parts: Seq<Seq<char>>, paint: Paint)
    requires
        lines_unbaked(lines),
        line_unbaked(cur),
        !(paint is Fixed),
    ensures
        lines_unbaked(run_parts(lines, cur, parts, paint).0),
        line_unbaked(run_parts(lines, cur, parts, paint).1),
    decreases parts.len(),
{
    if parts.len() > 1 {
        lemma_run_parts_unbaked(lines, cur, parts.drop_last(), paint);
        let (l, c) = run_parts(lines, cur, parts.drop_last(), paint);
        assert(lines_unbaked(l.push(c))) by {
            assert forall|i: int| 0 <= i < l.push(c).len() implies line_unbaked(#[trigger] l.push(c)[i]) by {
                if i < l.len() {
                    assert(l.push(c)[i] == l[i]);
                }
            }
        }
    }
}

proof fn lemma_fold_unbaked(evs: Seq<HlEventV>, n: int)
    ensures
        fold_events(evs, n) matches Some(st) ==> lines_unbaked(st.lines) && line_unbaked(st.cur),
    decreases n,
{
    if n > 0 {
        lemma_fold_unbaked(evs, n - 1);
        match fold_events(evs, n - 1) {
            Some(st) => {
                match evs[n - 1] {
                    HlEventV::Source(p) => {
                        lemma_run_parts_unbaked(st.lines, st.cur, split_nl(p), paint_of(st.stack));
                    },
                    _ => {},
                }
            },
            None => {},
        }
    }
}

/// Plain and tree-sitter highlighting are theme-independent: plain lines
/// carry only the default foreground, and no tree-sitter span (nor its plain
/// fallback) bakes a theme color, so cached results survive a theme switch.
pub proof fn theme_independence_law(text: Seq<char>, evs: Seq<HlEventV>)
    ensures
        forall|i: int, j: int| 0 <= i < plain_spec(text).len() && 0 <= j < plain_spec(text)[i].len()
            ==> (#[trigger] plain_spec(text)[i][j]).paint == Paint::Default,
        lines_unbaked(ts_lines_spec(text, evs)),
{
    assert forall|i: int, j: int| 0 <= i < plain_spec(text).len() && 0 <= j < plain_spec(text)[i].len()
        implies (#[trigger] plain_spec(text)[i][j]).paint == Paint::Default by {
        assert(plain_spec(text)[i] == plain_line(split_nl(text)[i]));
    }
    assert(lines_unbaked(plain_spec(text))) by {
        assert forall|i: int| 0 <= i < plain_spec(text).len() implies line_unbaked(#[trigger] plain_spec(text)[i]) by {
            assert(plain_spec(text)[i] == plain_line(split_nl(text)[i]));
        }
    }
    lemma_fold_unbaked(evs, evs.len() as int);
    match fold_events(evs, evs.len() as int) {
        Some(st) => {
            let ls = st.lines.push(st.cur);
            assert forall|i: int| 0 <= i < ls.len() implies line_unbaked(#[trigger] ls[i]) by {
                if i < st.lines.len() {
                    assert(ls[i] == st.lines[i]);
                }
            }
        },
        None => {},
    }
}

} // verus!
