//! Turn a pair of text blobs into structured hunks with context. The line diff
//! itself (histogram algorithm plus line post-processing) comes from
//! imara-diff; grouping the raw change regions into git-style hunks, the
//! context lines, the `@@` ranges and the intra-line emphasis are computed
//! here.

use vstd::prelude::*;
use crate::model::{Hunk, HunkV, Line, LineKind, LineV, lines_view, hunks_view, strs_view};
use crate::text::{chars_of, string_of_range};
use crate::emphasis::{emphasize_intra_line, emphasized, texts_fit};
use imara_diff::{Algorithm, Diff, InternedInput};

verus! {

/// `s` without one trailing `'\n'`.
pub open spec fn strip_nl(s: Seq<char>) -> Seq<char> {
    if s.len() > 0 && s.last() == '\n' {
        s.drop_last()
    } else {
        s
    }
}

/// `s` without one trailing `'\n'` and then one trailing `'\r'`.
pub open spec fn strip_eol_spec(s: Seq<char>) -> Seq<char> {
    let a = strip_nl(s);
    if a.len() > 0 && a.last() == '\r' {
        a.drop_last()
    } else {
        a
    }
}

/// Strip a single trailing line terminator for storage/display.
fn strip_eol(s: &str) -> (r: String)
    ensures
        r@ == strip_eol_spec(s@),
{
    let cs = chars_of(s);
    let mut end: usize = cs.len();
    if end > 0 && cs[end - 1] == '\n' {
        end = end - 1;
    }
    if end > 0 && cs[end - 1] == '\r' {
        end = end - 1;
    }
    let r = string_of_range(cs.as_slice(), 0, end);
    proof {
        let a = strip_nl(s@);
        if s@.len() > 0 && s@.last() == '\n' {
            assert(a =~= s@.subrange(0, s@.len() - 1));
        } else {
            assert(a =~= s@.subrange(0, s@.len() as int));
        }
        assert(r@ =~= strip_eol_spec(s@));
    }
    r
}

/// A raw change region from the line diff: `(before.start, before.end,
/// after.start, after.end)`, 0-based token (line) indices, end-exclusive.
pub type RawHunk = (u32, u32, u32, u32);

/// Regions `k` and `k + 1` are ordered with a gap of equally many unchanged
/// lines on both sides.
pub open spec fn adjacent_ok(raw: Seq<RawHunk>, k: int) -> bool {
    raw[k].1 < raw[k + 1].0 && raw[k + 1].0 - raw[k].1 == raw[k + 1].2 - raw[k].3
}

/// The shape the line diff guarantees for its change regions over `ol` old and
/// `nl` new lines: in-bounds ranges, in increasing order with at least one
/// unchanged line between neighbours, and equally many unchanged lines on both
/// sides before the first region, between neighbours and after the last.
pub open spec fn raw_wf(raw: Seq<RawHunk>, ol: nat, nl: nat) -> bool {
    &&& forall|k: int| 0 <= k < raw.len() ==> (#[trigger] raw[k]).0 <= raw[k].1 <= ol && raw[k].2 <= raw[k].3 <= nl
    &&& forall|k: int| 0 <= k < raw.len() - 1 ==> #[trigger] adjacent_ok(raw, k)
    &&& raw.len() > 0 ==> raw[0].0 == raw[0].2
    &&& raw.len() > 0 ==> ol - raw.last().1 == nl - raw.last().3
}

/// Last region of the hunk group starting at region `i`: neighbours are merged
/// while the unchanged gap between them is at most `2 * ctx` lines.
pub open spec fn group_end(raw: Seq<RawHunk>, i: int, ctx: u32) -> int
    decreases raw.len() - i,
{
    if 0 <= i && i + 1 < raw.len() && raw[i + 1].0 <= raw[i].1 + 2 * ctx {
        group_end(raw, i + 1, ctx)
    } else {
        i
    }
}

/// `a - b`, or 0 when `b > a`.
pub open spec fn sat_sub(a: u32, b: u32) -> u32 {
    if a >= b { (a - b) as u32 } else { 0 }
}

/// `min(a + b, cap)`.
pub open spec fn min_add(a: u32, b: u32, cap: nat) -> u32 {
    if a + b <= cap { (a + b) as u32 } else { cap as u32 }
}

/// Line `x` of `ls` as stored: without its line terminator.
pub open spec fn tok(ls: Seq<Seq<char>>, x: int) -> Seq<char> {
    strip_eol_spec(ls[x])
}

/// Context lines for old lines `[a, b)`, the first one paired with new line `n`.
#[verifier::opaque]
pub open spec fn ctx_run(old: Seq<Seq<char>>, a: int, b: int, n: int) -> Seq<LineV> {
    Seq::new((b - a) as nat, |t: int| LineV {
        kind: LineKind::Context,
        old_lineno: Some((a + t + 1) as u32),
        new_lineno: Some((n + t + 1) as u32),
        text: tok(old, a + t),
        emphasis: None,
    })
}

/// Removed lines for old lines `[a, b)`.
#[verifier::opaque]
pub open spec fn rem_run(old: Seq<Seq<char>>, a: int, b: int) -> Seq<LineV> {
    Seq::new((b - a) as nat, |t: int| LineV {
        kind: LineKind::Removed,
        old_lineno: Some((a + t + 1) as u32),
        new_lineno: None,
        text: tok(old, a + t),
        emphasis: None,
    })
}

/// Added lines for new lines `[a, b)`.
#[verifier::opaque]
pub open spec fn add_run(new: Seq<Seq<char>>, a: int, b: int) -> Seq<LineV> {
    Seq::new((b - a) as nat, |t: int| LineV {
        kind: LineKind::Added,
        old_lineno: None,
        new_lineno: Some((a + t + 1) as u32),
        text: tok(new, a + t),
        emphasis: None,
    })
}

/// Region `k` of a hunk: the context from old line `o` (new line `n`) up to the
/// region, then its removed lines, then its added lines.
pub open spec fn seg(old: Seq<Seq<char>>, new: Seq<Seq<char>>, r: RawHunk, o: int, n: int) -> Seq<LineV> {
    ctx_run(old, o, r.0 as int, n) + rem_run(old, r.0 as int, r.1 as int) + add_run(new, r.2 as int, r.3 as int)
}

/// The lines of regions `i..=k` of a hunk whose context starts at old line
/// `o0` / new line `n0`; each later region's context starts where the previous
/// region ended.
pub open spec fn segs(
    old: Seq<Seq<char>>,
    new: Seq<Seq<char>>,
    raw: Seq<RawHunk>,
    i: int,
    k: int,
    o0: int,
    n0: int,
) -> Seq<LineV>
    decreases k - i,
{
    if k <= i {
        seg(old, new, raw[i], o0, n0)
    } else {
        segs(old, new, raw, i, k - 1, o0, n0) + seg(old, new, raw[k], raw[k - 1].1 as int, raw[k - 1].3 as int)
    }
}

/// The hunk built from the group of regions starting at `i`: `ctx` lines of
/// context around it (clipped to the file), merged regions, and the `@@`
/// ranges (1-based starts, or 0 for an empty side). Paired removed/added lines
/// get their intra-line emphasis.
#[verifier::opaque]
pub open spec fn hunk_spec(
    old: Seq<Seq<char>>,
    new: Seq<Seq<char>>,
    raw: Seq<RawHunk>,
    ctx: u32,
    i: int,
) -> HunkV {
    let j = group_end(raw, i, ctx);
    let o_start = sat_sub(raw[i].0, ctx);
    let n_start = sat_sub(raw[i].2, ctx);
    let o_end = min_add(raw[j].1, ctx, old.len());
    let n_end = min_add(raw[j].3, ctx, new.len());
    let old_count = (o_end - o_start) as u32;
    let new_count = (n_end - n_start) as u32;
    let lines = segs(old, new, raw, i, j, o_start as int, n_start as int)
        + ctx_run(old, raw[j].1 as int, o_end as int, raw[j].3 as int);
    HunkV {
        old_start: if old_count == 0 { o_start } else { (o_start + 1) as u32 },
        old_len: old_count,
        new_start: if new_count == 0 { n_start } else { (n_start + 1) as u32 },
        new_len: new_count,
        lines: emphasized(lines),
    }
}

pub proof fn lemma_group_end(raw: Seq<RawHunk>, i: int, ctx: u32)
    requires
        0 <= i < raw.len(),
    ensures
        i <= group_end(raw, i, ctx) < raw.len(),
        forall|k: int| i <= k < group_end(raw, i, ctx) ==> #[trigger] raw[k + 1].0 <= raw[k].1 + 2 * ctx,
        group_end(raw, i, ctx) + 1 < raw.len() ==> raw[group_end(raw, i, ctx) + 1].0 > raw[group_end(raw, i, ctx)].1 + 2 * ctx,
    decreases raw.len() - i,
{
    if i + 1 < raw.len() && raw[i + 1].0 <= raw[i].1 + 2 * ctx {
        lemma_group_end(raw, i + 1, ctx);
    }
}

/// The hunks for all groups of regions from `i` on, in order.
pub open spec fn hunks_from(
    old: Seq<Seq<char>>,
    new: Seq<Seq<char>>,
    raw: Seq<RawHunk>,
    ctx: u32,
    i: int,
) -> Seq<HunkV>
    decreases raw.len() - i,
{
    if 0 <= i < raw.len() {
        proof {
            lemma_group_end(raw, i, ctx);
        }
        seq![hunk_spec(old, new, raw, ctx, i)] + hunks_from(old, new, raw, ctx, group_end(raw, i, ctx) + 1)
    } else {
        Seq::empty()
    }
}

proof fn lemma_chain(raw: Seq<RawHunk>, ol: nat, nl: nat, a: int, b: int)
    requires
        raw_wf(raw, ol, nl),
        0 <= a <= b < raw.len(),
    ensures
        raw[a].0 <= raw[b].0,
        raw[a].1 <= raw[b].1,
        raw[a].2 <= raw[b].2,
        raw[a].3 <= raw[b].3,
    decreases b - a,
{
    if a < b {
        lemma_chain(raw, ol, nl, a, b - 1);
        assert(adjacent_ok(raw, b - 1));
    }
}

/// Every string of `v` fits a `u32` char count.
pub open spec fn strs_fit(v: Seq<Seq<char>>) -> bool {
    forall|x: int| 0 <= x < v.len() ==> (#[trigger] v[x]).len() <= u32::MAX
}

proof fn lemma_strip_shorter(s: Seq<char>)
    ensures
        strip_eol_spec(s).len() <= s.len(),
{
}

fn emit_context(lines: &mut Vec<Line>, old_lines: &Vec<String>, a: u32, b: u32, n: u32)
    requires
        a <= b <= old_lines@.len(),
        n + (b - a) < u32::MAX,
        b < u32::MAX,
        strs_fit(strs_view(old_lines@)),
        texts_fit(lines_view(old(lines)@)),
    ensures
        lines_view(final(lines)@) == lines_view(old(lines)@) + ctx_run(strs_view(old_lines@), a as int, b as int, n as int),
        texts_fit(lines_view(final(lines)@)),
{
    let ghost start = lines_view(lines@);
    let ghost ov = strs_view(old_lines@);
    proof {
        reveal(ctx_run);
        assert(start =~= start + ctx_run(ov, a as int, a as int, n as int));
    }
    let mut o = a;
    let mut m = n;
    while o < b
        invariant
            a <= o <= b,
            m == n + (o - a),
            b <= old_lines@.len(),
            n + (b - a) < u32::MAX,
            b < u32::MAX,
            ov == strs_view(old_lines@),
            strs_fit(ov),
            texts_fit(lines_view(lines@)),
            lines_view(lines@) == start + ctx_run(ov, a as int, o as int, n as int),
        decreases b - o,
    {
        let text = strip_eol(old_lines[o as usize].as_str());
        proof {
            assert(ov[o as int] == old_lines@[o as int]@);
            lemma_strip_shorter(ov[o as int]);
        }
        let l = Line::context(text, o, m);
        let ghost prev = lines_view(lines@);
        lines.push(l);
        proof {
            assert(lines_view(lines@) =~= prev.push(l@));
            reveal(ctx_run);
            assert(ctx_run(ov, a as int, (o + 1) as int, n as int) =~= ctx_run(ov, a as int, o as int, n as int).push(l@));
        }
        o = o + 1;
        m = m + 1;
    }
}

fn emit_removed(lines: &mut Vec<Line>, old_lines: &Vec<String>, a: u32, b: u32)
    requires
        a <= b <= old_lines@.len(),
        b < u32::MAX,
        strs_fit(strs_view(old_lines@)),
        texts_fit(lines_view(old(lines)@)),
    ensures
        lines_view(final(lines)@) == lines_view(old(lines)@) + rem_run(strs_view(old_lines@), a as int, b as int),
        texts_fit(lines_view(final(lines)@)),
{
    let ghost start = lines_view(lines@);
    let ghost ov = strs_view(old_lines@);
    proof {
        reveal(rem_run);
        assert(start =~= start + rem_run(ov, a as int, a as int));
    }
    let mut o = a;
    while o < b
        invariant
            a <= o <= b,
            b <= old_lines@.len(),
            b < u32::MAX,
            ov == strs_view(old_lines@),
            strs_fit(ov),
            texts_fit(lines_view(lines@)),
            lines_view(lines@) == start + rem_run(ov, a as int, o as int),
        decreases b - o,
    {
        let text = strip_eol(old_lines[o as usize].as_str());
        proof {
            assert(ov[o as int] == old_lines@[o as int]@);
            lemma_strip_shorter(ov[o as int]);
        }
        let l = Line::removed(text, o);
        let ghost prev = lines_view(lines@);
        lines.push(l);
        proof {
            assert(lines_view(lines@) =~= prev.push(l@));
            reveal(rem_run);
            assert(rem_run(ov, a as int, (o + 1) as int) =~= rem_run(ov, a as int, o as int).push(l@));
        }
        o = o + 1;
    }
}

fn emit_added(lines: &mut Vec<Line>, new_lines: &Vec<String>, a: u32, b: u32)
    requires
        a <= b <= new_lines@.len(),
        b < u32::MAX,
        strs_fit(strs_view(new_lines@)),
        texts_fit(lines_view(old(lines)@)),
    ensures
        lines_view(final(lines)@) == lines_view(old(lines)@) + add_run(strs_view(new_lines@), a as int, b as int),
        texts_fit(lines_view(final(lines)@)),
{
    let ghost start = lines_view(lines@);
    let ghost nv = strs_view(new_lines@);
    proof {
        reveal(add_run);
        assert(start =~= start + add_run(nv, a as int, a as int));
    }
    let mut n = a;
    while n < b
        invariant
            a <= n <= b,
            b <= new_lines@.len(),
            b < u32::MAX,
            nv == strs_view(new_lines@),
            strs_fit(nv),
            texts_fit(lines_view(lines@)),
            lines_view(lines@) == start + add_run(nv, a as int, n as int),
        decreases b - n,
    {
        let text = strip_eol(new_lines[n as usize].as_str());
        proof {
            assert(nv[n as int] == new_lines@[n as int]@);
            lemma_strip_shorter(nv[n as int]);
        }
        let l = Line::added(text, n);
        let ghost prev = lines_view(lines@);
        lines.push(l);
        proof {
            assert(lines_view(lines@) =~= prev.push(l@));
            reveal(add_run);
            assert(add_run(nv, a as int, (n + 1) as int) =~= add_run(nv, a as int, n as int).push(l@));
        }
        n = n + 1;
    }
}

fn group_body(
    old_lines: &Vec<String>,
    new_lines: &Vec<String>,
    raw: &Vec<RawHunk>,
    context: u32,
    i: usize,
    j: usize,
    o_start: u32,
    n_start: u32,
) -> (lines: Vec<Line>)
    requires
        raw_wf(raw@, old_lines@.len(), new_lines@.len()),
        old_lines@.len() + 2 * context < u32::MAX,
        new_lines@.len() + 2 * context < u32::MAX,
        strs_fit(strs_view(old_lines@)),
        strs_fit(strs_view(new_lines@)),
        i <= j < raw@.len(),
        o_start <= raw@[i as int].0,
        n_start + (raw@[i as int].0 - o_start) == raw@[i as int].2,
    ensures
        lines_view(lines@) == segs(strs_view(old_lines@), strs_view(new_lines@), raw@, i as int, j as int, o_start as int, n_start as int),
        texts_fit(lines_view(lines@)),
{
    let ghost ov = strs_view(old_lines@);
    let ghost nv = strs_view(new_lines@);
    let ghost rv = raw@;
    let ghost gi = i as int;
    let ghost gj = j as int;
    let rlen = raw.len();
    let mut lines: Vec<Line> = Vec::new();
    let mut k: usize = i;
    let mut o: u32 = o_start;
    let mut n: u32 = n_start;
    while k <= j
        invariant
            i <= k <= j + 1,
            j < rlen,
            rlen == rv.len(),
            rv == raw@,
            gi == i,
            gj == j,
            raw_wf(rv, ov.len(), nv.len()),
            ov == strs_view(old_lines@),
            nv == strs_view(new_lines@),
            ov.len() + 2 * context < u32::MAX,
            nv.len() + 2 * context < u32::MAX,
            strs_fit(ov),
            strs_fit(nv),
            o_start <= rv[gi].0,
            n_start + (rv[gi].0 - o_start) == rv[gi].2,
            k == i ==> o == o_start && n == n_start,
            k > i ==> o == rv[k - 1].1 && n == rv[k - 1].3,
            texts_fit(lines_view(lines@)),
            lines_view(lines@) == (if k == i { Seq::empty() } else { segs(ov, nv, rv, gi, k - 1, o_start as int, n_start as int) }),
        decreases j + 1 - k,
    {
        let h = raw[k];
        proof {
            if k > i {
                assert(adjacent_ok(rv, k - 1));
            }
        }
        let ghost before = lines_view(lines@);
        emit_context(&mut lines, old_lines, o, h.0, n);
        let n2 = n + (h.0 - o);
        emit_removed(&mut lines, old_lines, h.0, h.1);
        emit_added(&mut lines, new_lines, n2, h.3);
        proof {
            assert(n2 == h.2);
            let s = seg(ov, nv, rv[k as int], o as int, n as int);
            assert(lines_view(lines@) =~= before + s);
            if k > i {
                assert(segs(ov, nv, rv, gi, k as int, o_start as int, n_start as int)
                    == segs(ov, nv, rv, gi, k - 1, o_start as int, n_start as int) + s);
            }
        }
        o = h.1;
        n = h.3;
        k = k + 1;
    }
    lines
}

fn build_hunk(
    old_lines: &Vec<String>,
    new_lines: &Vec<String>,
    raw: &Vec<RawHunk>,
    context: u32,
    i: usize,
    j: usize,
) -> (hunk: Hunk)
    requires
        raw_wf(raw@, old_lines@.len(), new_lines@.len()),
        old_lines@.len() + 2 * context < u32::MAX,
        new_lines@.len() + 2 * context < u32::MAX,
        strs_fit(strs_view(old_lines@)),
        strs_fit(strs_view(new_lines@)),
        i <= j < raw@.len(),
        j == group_end(raw@, i as int, context),
        i > 0 ==> raw@[i as int].0 > raw@[i - 1].1 + 2 * context,
    ensures
        hunk@ == hunk_spec(strs_view(old_lines@), strs_view(new_lines@), raw@, context, i as int),
{
    let ghost ov = strs_view(old_lines@);
    let ghost nv = strs_view(new_lines@);
    let ghost rv = raw@;
    let rlen = raw.len();
    let old_len = old_lines.len() as u32;
    let new_len = new_lines.len() as u32;
        let ghost gi = i as int;
        let ghost gj = j as int;
        let first = raw[i];
        let last = raw[j];
        let o_start = first.0.saturating_sub(context);
        let n_start = first.2.saturating_sub(context);
        let o_end = if last.1 + context <= old_len { last.1 + context } else { old_len };
        let n_end = if last.3 + context <= new_len { last.3 + context } else { new_len };
        proof {
            lemma_chain(rv, ov.len(), nv.len(), gi, gj);
            // The context before the group lines up on both sides.
            if gi == 0 {
                assert(rv[0].0 == rv[0].2);
            } else {
                assert(adjacent_ok(rv, gi - 1));
            }
        }
        let mut lines = group_body(old_lines, new_lines, raw, context, i, j, o_start, n_start);
        let o = last.1;
        let n = last.3;
        proof {
            if gj + 1 < rlen {
                assert(adjacent_ok(rv, gj));
            }
        }
        emit_context(&mut lines, old_lines, o, o_end, n);
        let ghost pre_emph = lines_view(lines@);
        emphasize_intra_line(&mut lines);
        let old_count = o_end - o_start;
        let new_count = n_end - n_start;
        let hunk = Hunk {
            old_start: if old_count == 0 { o_start } else { o_start + 1 },
            old_len: old_count,
            new_start: if new_count == 0 { n_start } else { n_start + 1 },
            new_len: new_count,
            lines,
        };
        proof {
            assert(lines_view(hunk.lines@) == emphasized(pre_emph));
            reveal(hunk_spec);
        }
        hunk
}

/// Structured hunks from the raw change regions of a line diff between
/// `old_lines` and `new_lines` (lines with their terminators), with `context`
/// lines of context: exactly [`hunks_from`] over all regions.
pub fn hunks_from_raw(
    old_lines: &Vec<String>,
    new_lines: &Vec<String>,
    raw: &Vec<RawHunk>,
    context: u32,
) -> (hunks: Vec<Hunk>)
    requires
        raw_wf(raw@, old_lines@.len(), new_lines@.len()),
        old_lines@.len() + 2 * context < u32::MAX,
        new_lines@.len() + 2 * context < u32::MAX,
        strs_fit(strs_view(old_lines@)),
        strs_fit(strs_view(new_lines@)),
    ensures
        hunks_view(hunks@) == hunks_from(strs_view(old_lines@), strs_view(new_lines@), raw@, context, 0),
{
    let ghost ov = strs_view(old_lines@);
    let ghost nv = strs_view(new_lines@);
    let ghost rv = raw@;
    let old_len = old_lines.len() as u32;
    let new_len = new_lines.len() as u32;
    let rlen = raw.len();
    let mut hunks: Vec<Hunk> = Vec::new();
    let mut i: usize = 0;
    while i < rlen
        invariant
            i <= rlen,
            rlen == rv.len(),
            rv == raw@,
            ov == strs_view(old_lines@),
            nv == strs_view(new_lines@),
            old_len == ov.len(),
            new_len == nv.len(),
            raw_wf(rv, ov.len(), nv.len()),
            ov.len() + 2 * context < u32::MAX,
            nv.len() + 2 * context < u32::MAX,
            strs_fit(ov),
            strs_fit(nv),
            0 < i < rlen ==> rv[i as int].0 > rv[i - 1].1 + 2 * context,
            hunks_view(hunks@) + hunks_from(ov, nv, rv, context, i as int) == hunks_from(ov, nv, rv, context, 0),
        decreases rlen - i,
    {
        let mut j: usize = i;
        proof {
            lemma_group_end(rv, i as int, context);
        }
        while j + 1 < rlen
            invariant
                i <= j < rlen,
                rlen == rv.len(),
                rv == raw@,
                group_end(rv, j as int, context) == group_end(rv, i as int, context),
                raw_wf(rv, ov.len(), nv.len()),
                ov.len() + 2 * context < u32::MAX,
            ensures
                j == group_end(rv, i as int, context),
            decreases rlen - j,
        {
            let cur_end = raw[j].1;
            let next_start = raw[j + 1].0;
            if next_start <= cur_end + 2 * context {
                j = j + 1;
            } else {
                break;
            }
        }
        let hunk = build_hunk(old_lines, new_lines, raw, context, i, j);
        let ghost gi = i as int;
        let ghost gj = j as int;
        proof {
            lemma_group_end(rv, gi, context);
            assert(hunks_from(ov, nv, rv, context, gi) == seq![hunk@] + hunks_from(ov, nv, rv, context, gj + 1));
        }
        let ghost prev = hunks_view(hunks@);
        hunks.push(hunk);
        proof {
            assert(hunks_view(hunks@) =~= prev.push(hunk@));
            assert(hunks_view(hunks@) + hunks_from(ov, nv, rv, context, gj + 1)
                =~= prev + hunks_from(ov, nv, rv, context, gi));
        }
        i = j + 1;
    }
    proof {
        assert(hunks_from(ov, nv, rv, context, i as int) =~= Seq::<HunkV>::empty());
        assert(hunks_view(hunks@) =~= hunks_view(hunks@) + Seq::<HunkV>::empty());
    }
    hunks
}


/// Length of the first line of `s`, its `'\n'` included when present.
pub open spec fn first_line_len(s: Seq<char>) -> nat
    decreases s.len(),
{
    if s.len() == 0 {
        0
    } else if s[0] == '\n' {
        1
    } else {
        1 + first_line_len(s.drop_first())
    }
}

pub proof fn lemma_first_line_len(s: Seq<char>)
    ensures
        s.len() > 0 ==> 1 <= first_line_len(s) <= s.len(),
        s.len() == 0 ==> first_line_len(s) == 0,
    decreases s.len(),
{
    if s.len() > 0 && s[0] != '\n' {
        lemma_first_line_len(s.drop_first());
    }
}

/// The lines of `s`, each with its terminating `'\n'` (the last one without,
/// when `s` does not end in a newline); no lines for an empty `s`.
pub open spec fn line_tokens(s: Seq<char>) -> Seq<Seq<char>>
    decreases s.len(),
{
    if s.len() == 0 {
        Seq::empty()
    } else {
        proof {
            lemma_first_line_len(s);
        }
        seq![s.take(first_line_len(s) as int)] + line_tokens(s.skip(first_line_len(s) as int))
    }
}

proof fn lemma_line_tokens_bounds(s: Seq<char>)
    ensures
        line_tokens(s).len() <= s.len(),
        forall|x: int| 0 <= x < line_tokens(s).len() ==> (#[trigger] line_tokens(s)[x]).len() <= s.len(),
    decreases s.len(),
{
    if s.len() > 0 {
        lemma_first_line_len(s);
        let k = first_line_len(s) as int;
        lemma_line_tokens_bounds(s.skip(k));
        let rest = line_tokens(s.skip(k));
        assert(line_tokens(s) == seq![s.take(k)] + rest);
        assert forall|x: int| 0 <= x < line_tokens(s).len() implies (#[trigger] line_tokens(s)[x]).len() <= s.len() by {
            if x > 0 {
                assert(line_tokens(s)[x] == rest[x - 1]);
            }
        }
    }
}

/// Added lines over regions `i..` of `raw`.
pub open spec fn added_from(raw: Seq<RawHunk>, i: int) -> int
    decreases raw.len() - i,
{
    if 0 <= i < raw.len() {
        (raw[i].3 - raw[i].2) + added_from(raw, i + 1)
    } else {
        0
    }
}

/// Removed lines over regions `i..` of `raw`.
pub open spec fn removed_from(raw: Seq<RawHunk>, i: int) -> int
    decreases raw.len() - i,
{
    if 0 <= i < raw.len() {
        (raw[i].1 - raw[i].0) + removed_from(raw, i + 1)
    } else {
        0
    }
}

/// Total of added lines over the regions of `raw`.
pub open spec fn added_total(raw: Seq<RawHunk>) -> int {
    added_from(raw, 0)
}

/// Total of removed lines over the regions of `raw`.
pub open spec fn removed_total(raw: Seq<RawHunk>) -> int {
    removed_from(raw, 0)
}

/// Every region changes something: it removes or adds at least one line.
pub open spec fn raw_nonempty(raw: Seq<RawHunk>) -> bool {
    forall|k: int| 0 <= k < raw.len() ==> (#[trigger] raw[k]).0 < raw[k].1 || raw[k].2 < raw[k].3
}

/// The change regions imara-diff's histogram line diff (with its line
/// post-processing) finds between `old` and `new`.
pub uninterp spec fn histogram_hunks(old: Seq<char>, new: Seq<char>) -> Seq<RawHunk>;

/// imara-diff: `InternedInput::new` over the two texts (line tokens, newline
/// included), `Diff::compute(Algorithm::Histogram, ..)`, `Diff::postprocess_lines`,
/// then the tokens' text, `Diff::hunks` as `(before.start, before.end,
/// after.start, after.end)`, `Diff::count_additions` and `Diff::count_removals`.
/// Claimed: the tokens are the texts' lines; the regions are the named
/// [`histogram_hunks`] and have the shape `HunkIter` produces over a valid edit
/// script (see [`raw_wf`]), each region removing or adding a line; the counts
/// are the totals of the regions' sides; equal texts give no region (the
/// common prefix is stripped before the diff runs).
#[verifier::external_body]
fn histogram_line_diff(old: &str, new: &str) -> (r: (Vec<String>, Vec<String>, Vec<RawHunk>, u32, u32))
    requires
        line_tokens(old@).len() < i32::MAX,
        line_tokens(new@).len() < i32::MAX,
    ensures
        strs_view(r.0@) == line_tokens(old@),
        strs_view(r.1@) == line_tokens(new@),
        r.2@ == histogram_hunks(old@, new@),
        raw_wf(r.2@, r.0@.len(), r.1@.len()),
        raw_nonempty(r.2@),
        old@ == new@ ==> r.2@.len() == 0,
        r.3 == added_total(r.2@),
        r.4 == removed_total(r.2@),
{
    let input = InternedInput::new(old, new);
    let mut diff = Diff::compute(Algorithm::Histogram, &input);
    diff.postprocess_lines(&input);
    let before = input.before.iter().map(|t| input.interner[*t].to_string()).collect();
    let after = input.after.iter().map(|t| input.interner[*t].to_string()).collect();
    let raw = diff.hunks().map(|h| (h.before.start, h.before.end, h.after.start, h.after.end)).collect();
    (before, after, raw, diff.count_additions(), diff.count_removals())
}

/// Whether `text` can be diffed by [`compute_hunks`]: fewer than `i32::MAX`
/// lines, each fitting a `u32` char count.
pub fn diffable(text: &str) -> (r: bool)
    ensures
        r == (line_tokens(text@).len() < i32::MAX && strs_fit(line_tokens(text@))),
{
    let cs = chars_of(text);
    let b = line_token_bounds(&cs);
    if b.len() >= 2_147_483_647 {
        return false;
    }
    let mut x: usize = 0;
    while x < b.len()
        invariant
            x <= b@.len(),
            b@.len() == line_tokens(cs@).len(),
            cs@ == text@,
            forall|y: int| 0 <= y < b@.len() ==> (#[trigger] b@[y]).0 <= b@[y].1 <= cs@.len()
                && cs@.subrange(b@[y].0 as int, b@[y].1 as int) == line_tokens(cs@)[y],
            forall|y: int| 0 <= y < x ==> (#[trigger] line_tokens(cs@)[y]).len() <= u32::MAX,
        decreases b@.len() - x,
    {
        let (lo, hi) = b[x];
        assert(line_tokens(cs@)[x as int].len() == hi - lo);
        if hi - lo > 4_294_967_295 {
            return false;
        }
        x = x + 1;
    }
    true
}

/// Structured hunks between `old` and `new` with `context` lines of context,
/// plus the total (additions, deletions) line counts.
/// Each text has fewer than `i32::MAX` lines (imara-diff's token limit), its
/// line count plus twice the context fits a `u32` (line numbers), and each of
/// its lines fits a `u32` char count (emphasis positions).
pub fn compute_hunks_with_context(old: &str, new: &str, context: u32) -> (r: (Vec<Hunk>, usize, usize))
    requires
        line_tokens(old@).len() < i32::MAX,
        line_tokens(new@).len() < i32::MAX,
        line_tokens(old@).len() + 2 * context < u32::MAX,
        line_tokens(new@).len() + 2 * context < u32::MAX,
        strs_fit(line_tokens(old@)),
        strs_fit(line_tokens(new@)),
    ensures
        hunks_view(r.0@) == hunks_from(line_tokens(old@), line_tokens(new@), histogram_hunks(old@, new@), context, 0),
        r.1 == added_total(histogram_hunks(old@, new@)),
        r.2 == removed_total(histogram_hunks(old@, new@)),
        forall|h: int| 0 <= h < r.0@.len() ==> old_side((#[trigger] r.0@[h])@.lines) == r.0@[h].old_len
            && new_side(r.0@[h]@.lines) == r.0@[h].new_len,
        hunks_ordered(hunks_view(r.0@)),
        forall|h: int| 0 <= h < r.0@.len() ==> {
            &&& old_nums((#[trigger] r.0@[h])@.lines) == span_from(r.0@[h].old_start as int, r.0@[h].old_len as int)
            &&& new_nums(r.0@[h]@.lines) == span_from(r.0@[h].new_start as int, r.0@[h].new_len as int)
            &&& texts_match(r.0@[h]@.lines, line_tokens(old@), line_tokens(new@))
        },
        r.1 == hunks_added(hunks_view(r.0@)),
        r.2 == hunks_removed(hunks_view(r.0@)),
        forall|h: int| 0 <= h < r.0@.len() ==> added_lines((#[trigger] r.0@[h])@.lines) + removed_lines(r.0@[h]@.lines) > 0,
        r.0@.len() == 0 <==> (r.1 == 0 && r.2 == 0),
        old@ == new@ ==> r.0@.len() == 0 && r.1 == 0 && r.2 == 0,
{
    let (old_lines, new_lines, raw, additions, deletions) = histogram_line_diff(old, new);
    let hunks = hunks_from_raw(&old_lines, &new_lines, &raw, context);
    proof {
        hunks_header_law(strs_view(old_lines@), strs_view(new_lines@), raw@, context, 0);
        hunks_shape_law(strs_view(old_lines@), strs_view(new_lines@), raw@, context, 0);
        hunks_totals_law(strs_view(old_lines@), strs_view(new_lines@), raw@, context, 0);
        assert forall|h: int| 0 <= h < hunks@.len() implies {
            &&& old_side((#[trigger] hunks@[h])@.lines) == hunks@[h].old_len
            &&& new_side(hunks@[h]@.lines) == hunks@[h].new_len
            &&& old_nums(hunks@[h]@.lines) == span_from(hunks@[h].old_start as int, hunks@[h].old_len as int)
            &&& new_nums(hunks@[h]@.lines) == span_from(hunks@[h].new_start as int, hunks@[h].new_len as int)
            &&& texts_match(hunks@[h]@.lines, line_tokens(old@), line_tokens(new@))
            &&& added_lines(hunks@[h]@.lines) + removed_lines(hunks@[h]@.lines) > 0
        } by {
            assert(hunks_view(hunks@)[h] == hunks@[h]@);
        }
        if hunks@.len() > 0 {
            assert(hunks_view(hunks@)[0] == hunks@[0]@);
        }
    }
    (hunks, additions as usize, deletions as usize)
}

/// Structured hunks between `old` and `new` with three lines of context, plus
/// the total (additions, deletions) line counts.
pub fn compute_hunks(old: &str, new: &str) -> (r: (Vec<Hunk>, usize, usize))
    requires
        line_tokens(old@).len() < i32::MAX,
        line_tokens(new@).len() < i32::MAX,
        strs_fit(line_tokens(old@)),
        strs_fit(line_tokens(new@)),
    ensures
        hunks_view(r.0@) == hunks_from(line_tokens(old@), line_tokens(new@), histogram_hunks(old@, new@), 3, 0),
        r.1 == added_total(histogram_hunks(old@, new@)),
        r.2 == removed_total(histogram_hunks(old@, new@)),
        forall|h: int| 0 <= h < r.0@.len() ==> old_side((#[trigger] r.0@[h])@.lines) == r.0@[h].old_len
            && new_side(r.0@[h]@.lines) == r.0@[h].new_len,
        hunks_ordered(hunks_view(r.0@)),
        forall|h: int| 0 <= h < r.0@.len() ==> {
            &&& old_nums((#[trigger] r.0@[h])@.lines) == span_from(r.0@[h].old_start as int, r.0@[h].old_len as int)
            &&& new_nums(r.0@[h]@.lines) == span_from(r.0@[h].new_start as int, r.0@[h].new_len as int)
            &&& texts_match(r.0@[h]@.lines, line_tokens(old@), line_tokens(new@))
        },
        r.1 == hunks_added(hunks_view(r.0@)),
        r.2 == hunks_removed(hunks_view(r.0@)),
        forall|h: int| 0 <= h < r.0@.len() ==> added_lines((#[trigger] r.0@[h])@.lines) + removed_lines(r.0@[h]@.lines) > 0,
        r.0@.len() == 0 <==> (r.1 == 0 && r.2 == 0),
        old@ == new@ ==> r.0@.len() == 0 && r.1 == 0 && r.2 == 0,
{
    compute_hunks_with_context(old, new, 3)
}


proof fn lemma_first_line_len_at(s: Seq<char>, q: int)
    requires
        0 <= q <= s.len(),
        forall|t: int| 0 <= t < q ==> s[t] != '\n',
        q == s.len() || s[q] == '\n',
    ensures
        first_line_len(s) == (if q < s.len() { q + 1 } else { q }),
    decreases q,
{
    if q > 0 {
        lemma_first_line_len_at(s.drop_first(), q - 1);
    }
}

/// The `[start, end)` char ranges of the [`line_tokens`] of `cs`.
pub(crate) fn line_token_bounds(cs: &Vec<char>) -> (r: Vec<(usize, usize)>)
    ensures
        r@.len() == line_tokens(cs@).len(),
        forall|x: int| 0 <= x < r@.len() ==> (#[trigger] r@[x]).0 <= r@[x].1 <= cs@.len()
            && cs@.subrange(r@[x].0 as int, r@[x].1 as int) == line_tokens(cs@)[x],
{
    let len = cs.len();
    let mut r: Vec<(usize, usize)> = Vec::new();
    let mut p: usize = 0;
    assert(cs@.skip(0) =~= cs@);
    while p < len
        invariant
            p <= len == cs@.len(),
            line_tokens(cs@).len() == r@.len() + line_tokens(cs@.skip(p as int)).len(),
            forall|x: int| 0 <= x < r@.len() ==> (#[trigger] r@[x]).0 <= r@[x].1 <= p
                && cs@.subrange(r@[x].0 as int, r@[x].1 as int) == line_tokens(cs@)[x],
            forall|x: int| 0 <= x < line_tokens(cs@.skip(p as int)).len()
                ==> line_tokens(cs@)[r@.len() + x] == #[trigger] line_tokens(cs@.skip(p as int))[x],
        decreases len - p,
    {
        let mut q: usize = p;
        while q < len && cs[q] != '\n'
            invariant
                p <= q <= len == cs@.len(),
                forall|t: int| p <= t < q ==> cs@[t] != '\n',
            decreases len - q,
        {
            q = q + 1;
        }
        let end = if q < len { q + 1 } else { q };
        let ghost rest = cs@.skip(p as int);
        proof {
            lemma_first_line_len_at(rest, q - p);
            assert(line_tokens(rest) == seq![rest.take(end - p)] + line_tokens(rest.skip(end - p)));
            assert(rest.skip(end - p) =~= cs@.skip(end as int));
            assert(rest.take(end - p) =~= cs@.subrange(p as int, end as int));
            assert(line_tokens(cs@)[r@.len() as int] == line_tokens(rest)[0]);
            assert forall|x: int| 0 <= x < line_tokens(cs@.skip(end as int)).len()
                implies line_tokens(cs@)[r@.len() + 1 + x] == #[trigger] line_tokens(cs@.skip(end as int))[x] by {
                assert(line_tokens(rest)[x + 1] == line_tokens(cs@.skip(end as int))[x]);
            }
        }
        r.push((p, end));
        p = end;
    }
    proof {
        assert(cs@.skip(len as int) =~= Seq::<char>::empty());
    }
    r
}

/// A line as std's `str::lines` yields it: a trailing `"\n"` or `"\r\n"`
/// removed (a lone trailing `'\r'` without `'\n'` is kept).
pub open spec fn std_line(tok: Seq<char>) -> Seq<char> {
    if tok.len() > 0 && tok.last() == '\n' {
        strip_eol_spec(tok)
    } else {
        tok
    }
}

/// The lines of `s` as std's `str::lines` yields them.
pub open spec fn std_lines(s: Seq<char>) -> Seq<Seq<char>> {
    line_tokens(s).map_values(|t: Seq<char>| std_line(t))
}

/// The whole-file view of `s`: nothing for an empty text, otherwise one
/// all-context hunk over every line, both sides starting at line 1.
pub open spec fn whole_file_spec(s: Seq<char>) -> Seq<HunkV> {
    let ls = std_lines(s);
    if ls.len() == 0 {
        Seq::empty()
    } else {
        seq![HunkV {
            old_start: 1,
            old_len: ls.len() as u32,
            new_start: 1,
            new_len: ls.len() as u32,
            lines: Seq::new(ls.len(), |i: int| LineV {
                kind: LineKind::Context,
                old_lineno: Some((i + 1) as u32),
                new_lineno: Some((i + 1) as u32),
                text: ls[i],
                emphasis: None,
            }),
        }]
    }
}

/// One synthetic all-context hunk covering the whole file, for the peek's
/// content mode (full file, highlighted, no add/remove markers).
pub fn whole_file_hunks(content: &str) -> (r: Vec<Hunk>)
    requires
        line_tokens(content@).len() < u32::MAX,
    ensures
        hunks_view(r@) == whole_file_spec(content@),
{
    let cs = chars_of(content);
    let bounds = line_token_bounds(&cs);
    proof {
        lemma_line_tokens_bounds(cs@);
    }
    let ghost ls = std_lines(content@);
    let mut lines: Vec<Line> = Vec::new();
    let mut i: usize = 0;
    while i < bounds.len()
        invariant
            i <= bounds@.len() == ls.len(),
            cs@ == content@,
            ls == std_lines(content@),
            ls.len() < u32::MAX,
            forall|x: int| 0 <= x < bounds@.len() ==> (#[trigger] bounds@[x]).0 <= bounds@[x].1 <= cs@.len()
                && cs@.subrange(bounds@[x].0 as int, bounds@[x].1 as int) == line_tokens(cs@)[x],
            lines_view(lines@) == Seq::new(i as nat, |t: int| LineV {
                kind: LineKind::Context,
                old_lineno: Some((t + 1) as u32),
                new_lineno: Some((t + 1) as u32),
                text: ls[t],
                emphasis: None,
            }),
        decreases bounds@.len() - i,
    {
        let (a, b) = bounds[i];
        let mut e = b;
        if e > a && cs[e - 1] == '\n' {
            e = e - 1;
            if e > a && cs[e - 1] == '\r' {
                e = e - 1;
            }
        }
        let text = string_of_range(cs.as_slice(), a, e);
        proof {
            let tk = line_tokens(cs@)[i as int];
            assert(tk == cs@.subrange(a as int, b as int));
            assert(ls[i as int] == std_line(tk));
            if tk.len() > 0 && tk.last() == '\n' {
                assert(strip_nl(tk) =~= cs@.subrange(a as int, b - 1));
            }
            assert(text@ =~= ls[i as int]);
        }
        let l = Line::context(text, i as u32, i as u32);
        let ghost prev = lines_view(lines@);
        lines.push(l);
        proof {
            assert(lines_view(lines@) =~= prev.push(l@));
        }
        i = i + 1;
        proof {
            assert(lines_view(lines@) =~= Seq::new(i as nat, |t: int| LineV {
                kind: LineKind::Context,
                old_lineno: Some((t + 1) as u32),
                new_lineno: Some((t + 1) as u32),
                text: ls[t],
                emphasis: None,
            }));
        }
    }
    if lines.len() == 0 {
        return Vec::new();
    }
    let n = lines.len() as u32;
    let hunk = Hunk { old_start: 1, old_len: n, new_start: 1, new_len: n, lines };
    let mut out: Vec<Hunk> = Vec::new();
    out.push(hunk);
    proof {
        assert(hunks_view(out@) =~= seq![hunk@]);
    }
    out
}

/// How many of `ls` lie on the old side (all but the added lines).
pub open spec fn old_side(ls: Seq<LineV>) -> nat
    decreases ls.len(),
{
    if ls.len() == 0 {
        0
    } else {
        old_side(ls.drop_last()) + (if ls.last().kind != LineKind::Added { 1nat } else { 0nat })
    }
}

/// How many of `ls` lie on the new side (all but the removed lines).
pub open spec fn new_side(ls: Seq<LineV>) -> nat
    decreases ls.len(),
{
    if ls.len() == 0 {
        0
    } else {
        new_side(ls.drop_last()) + (if ls.last().kind != LineKind::Removed { 1nat } else { 0nat })
    }
}

proof fn lemma_sides_concat(a: Seq<LineV>, b: Seq<LineV>)
    ensures
        old_side(a + b) == old_side(a) + old_side(b),
        new_side(a + b) == new_side(a) + new_side(b),
    decreases b.len(),
{
    if b.len() > 0 {
        lemma_sides_concat(a, b.drop_last());
        assert((a + b).drop_last() =~= a + b.drop_last());
    } else {
        assert(a + b =~= a);
    }
}

/// Lines of one kind count fully on each side they lie on.
proof fn lemma_sides_uniform(ls: Seq<LineV>, k: LineKind)
    requires
        forall|i: int| 0 <= i < ls.len() ==> (#[trigger] ls[i]).kind == k,
    ensures
        old_side(ls) == (if k != LineKind::Added { ls.len() } else { 0 }),
        new_side(ls) == (if k != LineKind::Removed { ls.len() } else { 0 }),
    decreases ls.len(),
{
    if ls.len() > 0 {
        lemma_sides_uniform(ls.drop_last(), k);
    }
}

/// Sequences with the same kinds position by position count the same.
proof fn lemma_sides_same_kinds(a: Seq<LineV>, b: Seq<LineV>)
    requires
        a.len() == b.len(),
        forall|i: int| 0 <= i < a.len() ==> (#[trigger] a[i]).kind == b[i].kind,
    ensures
        old_side(a) == old_side(b),
        new_side(a) == new_side(b),
    decreases a.len(),
{
    if a.len() > 0 {
        lemma_sides_same_kinds(a.drop_last(), b.drop_last());
    }
}

/// The sides of the three kinds of runs.
proof fn lemma_run_sides(old: Seq<Seq<char>>, new: Seq<Seq<char>>, a: int, b: int, n: int)
    requires
        a <= b,
    ensures
        old_side(ctx_run(old, a, b, n)) == b - a,
        new_side(ctx_run(old, a, b, n)) == b - a,
        old_side(rem_run(old, a, b)) == b - a,
        new_side(rem_run(old, a, b)) == 0,
        old_side(add_run(new, a, b)) == 0,
        new_side(add_run(new, a, b)) == b - a,
{
    reveal(ctx_run);
    reveal(rem_run);
    reveal(add_run);
    lemma_sides_uniform(ctx_run(old, a, b, n), LineKind::Context);
    lemma_sides_uniform(rem_run(old, a, b), LineKind::Removed);
    lemma_sides_uniform(add_run(new, a, b), LineKind::Added);
}

/// The sides of one region's lines with its leading context.
proof fn lemma_seg_sides(old: Seq<Seq<char>>, new: Seq<Seq<char>>, r: RawHunk, o: int, n: int)
    requires
        o <= r.0 <= r.1,
        r.2 <= r.3,
    ensures
        old_side(seg(old, new, r, o, n)) == r.1 - o,
        new_side(seg(old, new, r, o, n)) == (r.0 - o) + (r.3 - r.2),
{
    let c = ctx_run(old, o, r.0 as int, n);
    let m = rem_run(old, r.0 as int, r.1 as int);
    let d = add_run(new, r.2 as int, r.3 as int);
    lemma_run_sides(old, new, o, r.0 as int, n);
    lemma_run_sides(old, new, r.0 as int, r.1 as int, n);
    lemma_run_sides(old, new, r.2 as int, r.3 as int, n);
    lemma_sides_concat(c, m);
    lemma_sides_concat(c + m, d);
}

/// The sides of regions `i..=k` whose leading context is equally long on
/// both sides.
proof fn lemma_segs_sides(
    old: Seq<Seq<char>>,
    new: Seq<Seq<char>>,
    raw: Seq<RawHunk>,
    i: int,
    k: int,
    o0: int,
    n0: int,
)
    requires
        raw_wf(raw, old.len(), new.len()),
        0 <= i <= k < raw.len(),
        o0 <= raw[i].0,
        n0 <= raw[i].2,
        raw[i].0 - o0 == raw[i].2 - n0,
    ensures
        old_side(segs(old, new, raw, i, k, o0, n0)) == raw[k].1 - o0,
        new_side(segs(old, new, raw, i, k, o0, n0)) == raw[k].3 - n0,
    decreases k - i,
{
    if k <= i {
        lemma_seg_sides(old, new, raw[i], o0, n0);
    } else {
        lemma_segs_sides(old, new, raw, i, k - 1, o0, n0);
        assert(adjacent_ok(raw, k - 1));
        lemma_seg_sides(old, new, raw[k], raw[k - 1].1 as int, raw[k - 1].3 as int);
        lemma_sides_concat(
            segs(old, new, raw, i, k - 1, o0, n0),
            seg(old, new, raw[k], raw[k - 1].1 as int, raw[k - 1].3 as int),
        );
    }
}

/// Region `i` starts a hunk group: it is the first region, or the gap before
/// it is too wide to merge with the previous region.
pub open spec fn group_start(raw: Seq<RawHunk>, i: int, ctx: u32) -> bool {
    i == 0 || raw[i].0 > raw[i - 1].1 + 2 * ctx
}

/// A hunk's `@@` ranges describe its lines: the old range counts its context
/// and removed lines, the new range its context and added lines.
pub proof fn hunk_header_law(old: Seq<Seq<char>>, new: Seq<Seq<char>>, raw: Seq<RawHunk>, ctx: u32, i: int)
    requires
        raw_wf(raw, old.len(), new.len()),
        old.len() + 2 * ctx < u32::MAX,
        new.len() + 2 * ctx < u32::MAX,
        0 <= i < raw.len(),
        group_start(raw, i, ctx),
    ensures
        old_side(hunk_spec(old, new, raw, ctx, i).lines) == hunk_spec(old, new, raw, ctx, i).old_len,
        new_side(hunk_spec(old, new, raw, ctx, i).lines) == hunk_spec(old, new, raw, ctx, i).new_len,
{
    reveal(hunk_spec);
    lemma_group_end(raw, i, ctx);
    let j = group_end(raw, i, ctx);
    lemma_chain(raw, old.len(), new.len(), i, j);
    let o_start = sat_sub(raw[i].0, ctx);
    let n_start = sat_sub(raw[i].2, ctx);
    let o_end = min_add(raw[j].1, ctx, old.len());
    let n_end = min_add(raw[j].3, ctx, new.len());
    if i > 0 {
        assert(adjacent_ok(raw, i - 1));
    }
    assert(raw[i].0 - o_start == raw[i].2 - n_start);
    if j + 1 < raw.len() {
        assert(adjacent_ok(raw, j));
        lemma_chain(raw, old.len(), new.len(), j + 1, raw.len() - 1);
        assert(raw[j + 1].1 <= old.len());
        assert(raw[j + 1].3 <= new.len());
    }
    assert(o_end - raw[j].1 == n_end - raw[j].3);
    let body = segs(old, new, raw, i, j, o_start as int, n_start as int);
    let tail = ctx_run(old, raw[j].1 as int, o_end as int, raw[j].3 as int);
    lemma_segs_sides(old, new, raw, i, j, o_start as int, n_start as int);
    lemma_run_sides(old, new, raw[j].1 as int, o_end as int, raw[j].3 as int);
    lemma_sides_concat(body, tail);
    let lines = body + tail;
    assert forall|x: int| 0 <= x < lines.len() implies (#[trigger] emphasized(lines)[x]).kind == lines[x].kind by {}
    lemma_sides_same_kinds(emphasized(lines), lines);
}

/// Every hunk built from well-formed change regions has `@@` ranges that
/// count its lines: old length = context + removed lines, new length =
/// context + added lines.
pub proof fn hunks_header_law(old: Seq<Seq<char>>, new: Seq<Seq<char>>, raw: Seq<RawHunk>, ctx: u32, i: int)
    requires
        raw_wf(raw, old.len(), new.len()),
        old.len() + 2 * ctx < u32::MAX,
        new.len() + 2 * ctx < u32::MAX,
        0 <= i <= raw.len(),
        i < raw.len() ==> group_start(raw, i, ctx),
    ensures
        forall|h: int| 0 <= h < hunks_from(old, new, raw, ctx, i).len() ==> {
            &&& old_side((#[trigger] hunks_from(old, new, raw, ctx, i)[h]).lines) == hunks_from(old, new, raw, ctx, i)[h].old_len
            &&& new_side(hunks_from(old, new, raw, ctx, i)[h].lines) == hunks_from(old, new, raw, ctx, i)[h].new_len
        },
    decreases raw.len() - i,
{
    if i < raw.len() {
        lemma_group_end(raw, i, ctx);
        let j = group_end(raw, i, ctx);
        hunk_header_law(old, new, raw, ctx, i);
        hunks_header_law(old, new, raw, ctx, j + 1);
        let hs = hunks_from(old, new, raw, ctx, i);
        let rest = hunks_from(old, new, raw, ctx, j + 1);
        assert(hs == seq![hunk_spec(old, new, raw, ctx, i)] + rest);
        assert forall|h: int| 0 <= h < hs.len() implies {
            &&& old_side((#[trigger] hs[h]).lines) == hs[h].old_len
            &&& new_side(hs[h].lines) == hs[h].new_len
        } by {
            if h > 0 {
                assert(hs[h] == rest[h - 1]);
            }
        }
    }
}

/// The old-side line numbers of `ls` (its lines but the added ones), in order.
pub open spec fn old_nums(ls: Seq<LineV>) -> Seq<int>
    decreases ls.len(),
{
    if ls.len() == 0 {
        Seq::empty()
    } else if ls.last().kind != LineKind::Added {
        old_nums(ls.drop_last()).push(match ls.last().old_lineno { Some(n) => n as int, None => 0 })
    } else {
        old_nums(ls.drop_last())
    }
}

/// The new-side line numbers of `ls` (its lines but the removed ones), in order.
pub open spec fn new_nums(ls: Seq<LineV>) -> Seq<int>
    decreases ls.len(),
{
    if ls.len() == 0 {
        Seq::empty()
    } else if ls.last().kind != LineKind::Removed {
        new_nums(ls.drop_last()).push(match ls.last().new_lineno { Some(n) => n as int, None => 0 })
    } else {
        new_nums(ls.drop_last())
    }
}

/// The consecutive numbers `a, a + 1, .., a + n - 1`.
pub open spec fn span_from(a: int, n: int) -> Seq<int> {
    Seq::new(if n >= 0 { n as nat } else { 0 }, |t: int| a + t)
}

proof fn lemma_span_concat(a: int, m: int, n: int)
    requires
        m >= 0,
        n >= 0,
    ensures
        span_from(a, m) + span_from(a + m, n) == span_from(a, m + n),
{
    assert(span_from(a, m) + span_from(a + m, n) =~= span_from(a, m + n));
}

proof fn lemma_nums_concat(a: Seq<LineV>, b: Seq<LineV>)
    ensures
        old_nums(a + b) == old_nums(a) + old_nums(b),
        new_nums(a + b) == new_nums(a) + new_nums(b),
    decreases b.len(),
{
    if b.len() > 0 {
        lemma_nums_concat(a, b.drop_last());
        assert((a + b).drop_last() =~= a + b.drop_last());
        assert(old_nums(a) + old_nums(b) =~= old_nums(a) + old_nums(b.drop_last()) + (old_nums(b).skip(old_nums(b.drop_last()).len() as int)));
    } else {
        assert(a + b =~= a);
        assert(old_nums(a) + old_nums(b) =~= old_nums(a));
        assert(new_nums(a) + new_nums(b) =~= new_nums(a));
    }
}

proof fn lemma_nums_same(a: Seq<LineV>, b: Seq<LineV>)
    requires
        a.len() == b.len(),
        forall|i: int| 0 <= i < a.len() ==> (#[trigger] a[i]).kind == b[i].kind && a[i].old_lineno == b[i].old_lineno
            && a[i].new_lineno == b[i].new_lineno,
    ensures
        old_nums(a) == old_nums(b),
        new_nums(a) == new_nums(b),
    decreases a.len(),
{
    if a.len() > 0 {
        lemma_nums_same(a.drop_last(), b.drop_last());
    }
}

/// The numbers of a run whose lines all have kind `k` and old/new numbers
/// given by `fo`/`fn_` at position `t`.
proof fn lemma_nums_run(ls: Seq<LineV>, k: LineKind, a: int, n: int)
    requires
        forall|t: int| 0 <= t < ls.len() ==> (#[trigger] ls[t]).kind == k,
        k != LineKind::Added ==> forall|t: int| 0 <= t < ls.len() ==> (#[trigger] ls[t]).old_lineno == Some((a + t) as u32),
        k != LineKind::Removed ==> forall|t: int| 0 <= t < ls.len() ==> (#[trigger] ls[t]).new_lineno == Some((n + t) as u32),
        0 <= a,
        a + ls.len() <= u32::MAX,
        0 <= n,
        n + ls.len() <= u32::MAX,
    ensures
        old_nums(ls) == (if k != LineKind::Added { span_from(a, ls.len() as int) } else { Seq::empty() }),
        new_nums(ls) == (if k != LineKind::Removed { span_from(n, ls.len() as int) } else { Seq::empty() }),
    decreases ls.len(),
{
    if ls.len() > 0 {
        lemma_nums_run(ls.drop_last(), k, a, n);
        assert(span_from(a, ls.len() as int) =~= span_from(a, ls.len() - 1).push(a + ls.len() - 1));
        assert(span_from(n, ls.len() as int) =~= span_from(n, ls.len() - 1).push(n + ls.len() - 1));
    } else {
        assert(span_from(a, 0) =~= Seq::<int>::empty());
        assert(span_from(n, 0) =~= Seq::<int>::empty());
    }
}

proof fn lemma_run_nums(old: Seq<Seq<char>>, new: Seq<Seq<char>>, a: int, b: int, n: int)
    requires
        0 <= a <= b,
        b + 1 <= u32::MAX,
        0 <= n,
        n + (b - a) + 1 <= u32::MAX,
    ensures
        old_nums(ctx_run(old, a, b, n)) == span_from(a + 1, b - a),
        new_nums(ctx_run(old, a, b, n)) == span_from(n + 1, b - a),
        old_nums(rem_run(old, a, b)) == span_from(a + 1, b - a),
        new_nums(rem_run(old, a, b)) == Seq::<int>::empty(),
        old_nums(add_run(new, a, b)) == Seq::<int>::empty(),
        new_nums(add_run(new, a, b)) == span_from(a + 1, b - a),
{
    reveal(ctx_run);
    reveal(rem_run);
    reveal(add_run);
    lemma_nums_run(ctx_run(old, a, b, n), LineKind::Context, a + 1, n + 1);
    lemma_nums_run(rem_run(old, a, b), LineKind::Removed, a + 1, 0);
    lemma_nums_run(add_run(new, a, b), LineKind::Added, 0, a + 1);
}

proof fn lemma_seg_nums(old: Seq<Seq<char>>, new: Seq<Seq<char>>, r: RawHunk, o: int, n: int)
    requires
        0 <= o <= r.0 <= r.1,
        r.2 <= r.3,
        r.1 + 1 <= u32::MAX,
        r.3 + 1 <= u32::MAX,
        0 <= n,
        r.2 - n == r.0 - o,
    ensures
        old_nums(seg(old, new, r, o, n)) == span_from(o + 1, r.1 - o),
        new_nums(seg(old, new, r, o, n)) == span_from(n + 1, r.3 - n),
{
    let c = ctx_run(old, o, r.0 as int, n);
    let m = rem_run(old, r.0 as int, r.1 as int);
    let d = add_run(new, r.2 as int, r.3 as int);
    lemma_run_nums(old, new, o, r.0 as int, n);
    lemma_run_nums(old, new, r.0 as int, r.1 as int, 0);
    lemma_run_nums(old, new, r.2 as int, r.3 as int, 0);
    lemma_nums_concat(c, m);
    lemma_nums_concat(c + m, d);
    lemma_span_concat(o + 1, r.0 - o, r.1 - r.0);
    lemma_span_concat(n + 1, r.0 - o, r.3 - r.2);
    assert(span_from(n + 1, r.0 - o) + Seq::<int>::empty() =~= span_from(n + 1, r.0 - o));
    assert(span_from(o + 1, r.1 - o) + Seq::<int>::empty() =~= span_from(o + 1, r.1 - o));
}

proof fn lemma_segs_nums(
    old: Seq<Seq<char>>,
    new: Seq<Seq<char>>,
    raw: Seq<RawHunk>,
    i: int,
    k: int,
    o0: int,
    n0: int,
)
    requires
        raw_wf(raw, old.len(), new.len()),
        old.len() < u32::MAX,
        new.len() < u32::MAX,
        0 <= i <= k < raw.len(),
        0 <= o0 <= raw[i].0,
        0 <= n0 <= raw[i].2,
        raw[i].0 - o0 == raw[i].2 - n0,
    ensures
        old_nums(segs(old, new, raw, i, k, o0, n0)) == span_from(o0 + 1, raw[k].1 - o0),
        new_nums(segs(old, new, raw, i, k, o0, n0)) == span_from(n0 + 1, raw[k].3 - n0),
    decreases k - i,
{
    lemma_chain(raw, old.len(), new.len(), i, k);
    if k <= i {
        lemma_seg_nums(old, new, raw[i], o0, n0);
    } else {
        lemma_segs_nums(old, new, raw, i, k - 1, o0, n0);
        lemma_chain(raw, old.len(), new.len(), i, k - 1);
        assert(adjacent_ok(raw, k - 1));
        lemma_seg_nums(old, new, raw[k], raw[k - 1].1 as int, raw[k - 1].3 as int);
        lemma_nums_concat(
            segs(old, new, raw, i, k - 1, o0, n0),
            seg(old, new, raw[k], raw[k - 1].1 as int, raw[k - 1].3 as int),
        );
        lemma_span_concat(o0 + 1, raw[k - 1].1 - o0, raw[k].1 - raw[k - 1].1);
        lemma_span_concat(n0 + 1, raw[k - 1].3 - n0, raw[k].3 - raw[k - 1].3);
    }
}

/// A hunk's lines number the `@@` ranges exactly: its old-side lines (context
/// and removed) are old lines `old_start, old_start + 1, ..` in order, as many
/// as `old_len`, and its new-side lines (context and added) likewise new lines
/// from `new_start`.
pub proof fn hunk_numbering_law(old: Seq<Seq<char>>, new: Seq<Seq<char>>, raw: Seq<RawHunk>, ctx: u32, i: int)
    requires
        raw_wf(raw, old.len(), new.len()),
        old.len() + 2 * ctx < u32::MAX,
        new.len() + 2 * ctx < u32::MAX,
        0 <= i < raw.len(),
        group_start(raw, i, ctx),
    ensures
        ({
            let h = hunk_spec(old, new, raw, ctx, i);
            &&& old_nums(h.lines) == span_from(h.old_start as int, h.old_len as int)
            &&& new_nums(h.lines) == span_from(h.new_start as int, h.new_len as int)
        }),
{
    reveal(hunk_spec);
    lemma_group_end(raw, i, ctx);
    let j = group_end(raw, i, ctx);
    lemma_chain(raw, old.len(), new.len(), i, j);
    let o_start = sat_sub(raw[i].0, ctx);
    let n_start = sat_sub(raw[i].2, ctx);
    let o_end = min_add(raw[j].1, ctx, old.len());
    let n_end = min_add(raw[j].3, ctx, new.len());
    if i > 0 {
        assert(adjacent_ok(raw, i - 1));
    }
    assert(raw[i].0 - o_start == raw[i].2 - n_start);
    if j + 1 < raw.len() {
        assert(adjacent_ok(raw, j));
        lemma_chain(raw, old.len(), new.len(), j + 1, raw.len() - 1);
    }
    assert(o_end - raw[j].1 == n_end - raw[j].3);
    let body = segs(old, new, raw, i, j, o_start as int, n_start as int);
    let tail = ctx_run(old, raw[j].1 as int, o_end as int, raw[j].3 as int);
    lemma_segs_nums(old, new, raw, i, j, o_start as int, n_start as int);
    lemma_run_nums(old, new, raw[j].1 as int, o_end as int, raw[j].3 as int);
    lemma_nums_concat(body, tail);
    lemma_span_concat(o_start + 1, raw[j].1 - o_start, o_end - raw[j].1);
    lemma_span_concat(n_start + 1, raw[j].3 - n_start, n_end - raw[j].3);
    let lines = body + tail;
    assert forall|x: int| 0 <= x < lines.len() implies (#[trigger] emphasized(lines)[x]).kind == lines[x].kind
        && emphasized(lines)[x].old_lineno == lines[x].old_lineno && emphasized(lines)[x].new_lineno == lines[x].new_lineno by {}
    lemma_nums_same(emphasized(lines), lines);
    let h = hunk_spec(old, new, raw, ctx, i);
    if h.old_len == 0 {
        assert(span_from(h.old_start as int, 0) =~= span_from(o_start + 1, 0));
    }
    if h.new_len == 0 {
        assert(span_from(h.new_start as int, 0) =~= span_from(n_start + 1, 0));
    }
}

/// Every line of `ls` holds the text of the line it numbers: an added line
/// its new line's, every other line its old line's (without the terminator).
pub open spec fn texts_match(ls: Seq<LineV>, old: Seq<Seq<char>>, new: Seq<Seq<char>>) -> bool {
    forall|x: int| 0 <= x < ls.len() ==> {
        &&& (#[trigger] ls[x]).kind != LineKind::Added ==> (ls[x].old_lineno matches Some(n)
            && 1 <= n <= old.len() && ls[x].text == tok(old, n - 1))
        &&& ls[x].kind == LineKind::Added ==> (ls[x].new_lineno matches Some(n) && 1 <= n <= new.len()
            && ls[x].text == tok(new, n - 1))
    }
}

proof fn lemma_texts_concat(a: Seq<LineV>, b: Seq<LineV>, old: Seq<Seq<char>>, new: Seq<Seq<char>>)
    requires
        texts_match(a, old, new),
        texts_match(b, old, new),
    ensures
        texts_match(a + b, old, new),
{
    assert forall|x: int| 0 <= x < (a + b).len() implies {
        &&& (#[trigger] (a + b)[x]).kind != LineKind::Added ==> ((a + b)[x].old_lineno matches Some(n)
            && 1 <= n <= old.len() && (a + b)[x].text == tok(old, n - 1))
        &&& (a + b)[x].kind == LineKind::Added ==> ((a + b)[x].new_lineno matches Some(n) && 1 <= n <= new.len()
            && (a + b)[x].text == tok(new, n - 1))
    } by {
        if x < a.len() {
            assert((a + b)[x] == a[x]);
        } else {
            assert((a + b)[x] == b[x - a.len()]);
        }
    }
}

proof fn lemma_run_texts(old: Seq<Seq<char>>, new: Seq<Seq<char>>, a: int, b: int, n: int)
    requires
        0 <= a <= b,
        old.len() < u32::MAX,
        new.len() < u32::MAX,
    ensures
        b <= old.len() ==> texts_match(ctx_run(old, a, b, n), old, new),
        b <= old.len() ==> texts_match(rem_run(old, a, b), old, new),
        b <= new.len() ==> texts_match(add_run(new, a, b), old, new),
{
    reveal(ctx_run);
    reveal(rem_run);
    reveal(add_run);
}

/// Every hunk line holds the text of the line it numbers.
pub proof fn hunk_texts_law(old: Seq<Seq<char>>, new: Seq<Seq<char>>, raw: Seq<RawHunk>, ctx: u32, i: int)
    requires
        raw_wf(raw, old.len(), new.len()),
        old.len() + 2 * ctx < u32::MAX,
        new.len() + 2 * ctx < u32::MAX,
        0 <= i < raw.len(),
        group_start(raw, i, ctx),
    ensures
        texts_match(hunk_spec(old, new, raw, ctx, i).lines, old, new),
{
    reveal(hunk_spec);
    lemma_group_end(raw, i, ctx);
    let j = group_end(raw, i, ctx);
    lemma_chain(raw, old.len(), new.len(), i, j);
    let o_start = sat_sub(raw[i].0, ctx);
    let n_start = sat_sub(raw[i].2, ctx);
    let o_end = min_add(raw[j].1, ctx, old.len());
    lemma_segs_texts(old, new, raw, i, j, o_start as int, n_start as int);
    lemma_run_texts(old, new, raw[j].1 as int, o_end as int, raw[j].3 as int);
    let lines = segs(old, new, raw, i, j, o_start as int, n_start as int)
        + ctx_run(old, raw[j].1 as int, o_end as int, raw[j].3 as int);
    lemma_texts_concat(segs(old, new, raw, i, j, o_start as int, n_start as int),
        ctx_run(old, raw[j].1 as int, o_end as int, raw[j].3 as int), old, new);
    assert forall|x: int| 0 <= x < lines.len() implies (#[trigger] emphasized(lines)[x]).kind == lines[x].kind
        && emphasized(lines)[x].old_lineno == lines[x].old_lineno && emphasized(lines)[x].new_lineno == lines[x].new_lineno
        && emphasized(lines)[x].text == lines[x].text by {}
}

proof fn lemma_segs_texts(
    old: Seq<Seq<char>>,
    new: Seq<Seq<char>>,
    raw: Seq<RawHunk>,
    i: int,
    k: int,
    o0: int,
    n0: int,
)
    requires
        raw_wf(raw, old.len(), new.len()),
        old.len() < u32::MAX,
        new.len() < u32::MAX,
        0 <= i <= k < raw.len(),
        0 <= o0 <= raw[i].0,
    ensures
        texts_match(segs(old, new, raw, i, k, o0, n0), old, new),
    decreases k - i,
{
    if k <= i {
        lemma_run_texts(old, new, o0, raw[i].0 as int, n0);
        lemma_run_texts(old, new, raw[i].0 as int, raw[i].1 as int, n0);
        lemma_run_texts(old, new, raw[i].2 as int, raw[i].3 as int, n0);
        lemma_texts_concat(ctx_run(old, o0, raw[i].0 as int, n0), rem_run(old, raw[i].0 as int, raw[i].1 as int), old, new);
        lemma_texts_concat(ctx_run(old, o0, raw[i].0 as int, n0) + rem_run(old, raw[i].0 as int, raw[i].1 as int),
            add_run(new, raw[i].2 as int, raw[i].3 as int), old, new);
    } else {
        lemma_segs_texts(old, new, raw, i, k - 1, o0, n0);
        assert(adjacent_ok(raw, k - 1));
        let r = raw[k];
        let o = raw[k - 1].1 as int;
        let n = raw[k - 1].3 as int;
        lemma_run_texts(old, new, o, r.0 as int, n);
        lemma_run_texts(old, new, r.0 as int, r.1 as int, n);
        lemma_run_texts(old, new, r.2 as int, r.3 as int, n);
        lemma_texts_concat(ctx_run(old, o, r.0 as int, n), rem_run(old, r.0 as int, r.1 as int), old, new);
        lemma_texts_concat(ctx_run(old, o, r.0 as int, n) + rem_run(old, r.0 as int, r.1 as int),
            add_run(new, r.2 as int, r.3 as int), old, new);
        lemma_texts_concat(segs(old, new, raw, i, k - 1, o0, n0), seg(old, new, r, o, n), old, new);
    }
}

/// Consecutive hunks are in order and apart: each ends (on both sides)
/// before the next one starts.
pub open spec fn hunks_ordered(hs: Seq<HunkV>) -> bool {
    forall|k: int| 0 <= k < hs.len() - 1 ==> {
        &&& (#[trigger] hs[k]).old_start + hs[k].old_len < hs[k + 1].old_start + (if hs[k + 1].old_len == 0 { 1int } else { 0int })
        &&& hs[k].new_start + hs[k].new_len < hs[k + 1].new_start + (if hs[k + 1].new_len == 0 { 1int } else { 0int })
    }
}

/// The hunks built from well-formed change regions are described exactly by
/// their `@@` ranges and lie in order: each hunk's old-side lines are old
/// lines `old_start..old_start + old_len` in order (new side likewise), every
/// line holds the text of the line it numbers, and each hunk ends before the
/// next begins.
pub proof fn hunks_shape_law(old: Seq<Seq<char>>, new: Seq<Seq<char>>, raw: Seq<RawHunk>, ctx: u32, i: int)
    requires
        raw_wf(raw, old.len(), new.len()),
        old.len() + 2 * ctx < u32::MAX,
        new.len() + 2 * ctx < u32::MAX,
        0 <= i <= raw.len(),
        i < raw.len() ==> group_start(raw, i, ctx),
    ensures
        hunks_ordered(hunks_from(old, new, raw, ctx, i)),
        forall|h: int| 0 <= h < hunks_from(old, new, raw, ctx, i).len() ==> {
            &&& old_nums((#[trigger] hunks_from(old, new, raw, ctx, i)[h]).lines)
                == span_from(hunks_from(old, new, raw, ctx, i)[h].old_start as int, hunks_from(old, new, raw, ctx, i)[h].old_len as int)
            &&& new_nums(hunks_from(old, new, raw, ctx, i)[h].lines)
                == span_from(hunks_from(old, new, raw, ctx, i)[h].new_start as int, hunks_from(old, new, raw, ctx, i)[h].new_len as int)
            &&& texts_match(hunks_from(old, new, raw, ctx, i)[h].lines, old, new)
        },
    decreases raw.len() - i,
{
    if i < raw.len() {
        lemma_group_end(raw, i, ctx);
        let j = group_end(raw, i, ctx);
        hunk_numbering_law(old, new, raw, ctx, i);
        hunk_texts_law(old, new, raw, ctx, i);
        hunks_shape_law(old, new, raw, ctx, j + 1);
        let hs = hunks_from(old, new, raw, ctx, i);
        let rest = hunks_from(old, new, raw, ctx, j + 1);
        let h0 = hunk_spec(old, new, raw, ctx, i);
        assert(hs == seq![h0] + rest);
        assert forall|h: int| 0 <= h < hs.len() implies {
            &&& old_nums((#[trigger] hs[h]).lines) == span_from(hs[h].old_start as int, hs[h].old_len as int)
            &&& new_nums(hs[h].lines) == span_from(hs[h].new_start as int, hs[h].new_len as int)
            &&& texts_match(hs[h].lines, old, new)
        } by {
            if h > 0 {
                assert(hs[h] == rest[h - 1]);
            }
        }
        if rest.len() > 0 {
            reveal(hunk_spec);
            lemma_chain(raw, old.len(), new.len(), i, j);
            assert(adjacent_ok(raw, j));
            lemma_group_end(raw, j + 1, ctx);
            assert(rest[0] == hunk_spec(old, new, raw, ctx, j + 1));
        }
        assert forall|k: int| 0 <= k < hs.len() - 1 implies {
            &&& (#[trigger] hs[k]).old_start + hs[k].old_len < hs[k + 1].old_start + (if hs[k + 1].old_len == 0 { 1int } else { 0int })
            &&& hs[k].new_start + hs[k].new_len < hs[k + 1].new_start + (if hs[k + 1].new_len == 0 { 1int } else { 0int })
        } by {
            if k > 0 {
                assert(hs[k] == rest[k - 1]);
                assert(hs[k + 1] == rest[k]);
            }
        }
    }
}

/// How many of `ls` are added lines.
pub open spec fn added_lines(ls: Seq<LineV>) -> nat
    decreases ls.len(),
{
    if ls.len() == 0 {
        0
    } else {
        added_lines(ls.drop_last()) + (if ls.last().kind == LineKind::Added { 1nat } else { 0nat })
    }
}

/// How many of `ls` are removed lines.
pub open spec fn removed_lines(ls: Seq<LineV>) -> nat
    decreases ls.len(),
{
    if ls.len() == 0 {
        0
    } else {
        removed_lines(ls.drop_last()) + (if ls.last().kind == LineKind::Removed { 1nat } else { 0nat })
    }
}

/// Added lines over all hunks of `hs`.
pub open spec fn hunks_added(hs: Seq<HunkV>) -> nat
    decreases hs.len(),
{
    if hs.len() == 0 {
        0
    } else {
        added_lines(hs[0].lines) + hunks_added(hs.drop_first())
    }
}

/// Removed lines over all hunks of `hs`.
pub open spec fn hunks_removed(hs: Seq<HunkV>) -> nat
    decreases hs.len(),
{
    if hs.len() == 0 {
        0
    } else {
        removed_lines(hs[0].lines) + hunks_removed(hs.drop_first())
    }
}

proof fn lemma_counts_concat(a: Seq<LineV>, b: Seq<LineV>)
    ensures
        added_lines(a + b) == added_lines(a) + added_lines(b),
        removed_lines(a + b) == removed_lines(a) + removed_lines(b),
    decreases b.len(),
{
    if b.len() > 0 {
        lemma_counts_concat(a, b.drop_last());
        assert((a + b).drop_last() =~= a + b.drop_last());
    } else {
        assert(a + b =~= a);
    }
}

proof fn lemma_counts_uniform(ls: Seq<LineV>, k: LineKind)
    requires
        forall|i: int| 0 <= i < ls.len() ==> (#[trigger] ls[i]).kind == k,
    ensures
        added_lines(ls) == (if k == LineKind::Added { ls.len() } else { 0 }),
        removed_lines(ls) == (if k == LineKind::Removed { ls.len() } else { 0 }),
    decreases ls.len(),
{
    if ls.len() > 0 {
        lemma_counts_uniform(ls.drop_last(), k);
    }
}

proof fn lemma_counts_same_kinds(a: Seq<LineV>, b: Seq<LineV>)
    requires
        a.len() == b.len(),
        forall|i: int| 0 <= i < a.len() ==> (#[trigger] a[i]).kind == b[i].kind,
    ensures
        added_lines(a) == added_lines(b),
        removed_lines(a) == removed_lines(b),
    decreases a.len(),
{
    if a.len() > 0 {
        lemma_counts_same_kinds(a.drop_last(), b.drop_last());
    }
}

proof fn lemma_run_counts(old: Seq<Seq<char>>, new: Seq<Seq<char>>, a: int, b: int, n: int)
    requires
        a <= b,
    ensures
        added_lines(ctx_run(old, a, b, n)) == 0,
        removed_lines(ctx_run(old, a, b, n)) == 0,
        added_lines(rem_run(old, a, b)) == 0,
        removed_lines(rem_run(old, a, b)) == b - a,
        added_lines(add_run(new, a, b)) == b - a,
        removed_lines(add_run(new, a, b)) == 0,
{
    reveal(ctx_run);
    reveal(rem_run);
    reveal(add_run);
    lemma_counts_uniform(ctx_run(old, a, b, n), LineKind::Context);
    lemma_counts_uniform(rem_run(old, a, b), LineKind::Removed);
    lemma_counts_uniform(add_run(new, a, b), LineKind::Added);
}

proof fn lemma_seg_counts(old: Seq<Seq<char>>, new: Seq<Seq<char>>, r: RawHunk, o: int, n: int)
    requires
        o <= r.0 <= r.1,
        r.2 <= r.3,
    ensures
        added_lines(seg(old, new, r, o, n)) == r.3 - r.2,
        removed_lines(seg(old, new, r, o, n)) == r.1 - r.0,
{
    let c = ctx_run(old, o, r.0 as int, n);
    let m = rem_run(old, r.0 as int, r.1 as int);
    let d = add_run(new, r.2 as int, r.3 as int);
    lemma_run_counts(old, new, o, r.0 as int, n);
    lemma_run_counts(old, new, r.0 as int, r.1 as int, n);
    lemma_run_counts(old, new, r.2 as int, r.3 as int, n);
    lemma_counts_concat(c, m);
    lemma_counts_concat(c + m, d);
}

proof fn lemma_segs_counts(
    old: Seq<Seq<char>>,
    new: Seq<Seq<char>>,
    raw: Seq<RawHunk>,
    i: int,
    k: int,
    o0: int,
    n0: int,
)
    requires
        raw_wf(raw, old.len(), new.len()),
        0 <= i <= k < raw.len(),
        o0 <= raw[i].0,
    ensures
        added_lines(segs(old, new, raw, i, k, o0, n0)) == added_from(raw, i) - added_from(raw, k + 1),
        removed_lines(segs(old, new, raw, i, k, o0, n0)) == removed_from(raw, i) - removed_from(raw, k + 1),
    decreases k - i,
{
    if k <= i {
        lemma_seg_counts(old, new, raw[i], o0, n0);
    } else {
        lemma_segs_counts(old, new, raw, i, k - 1, o0, n0);
        assert(adjacent_ok(raw, k - 1));
        lemma_seg_counts(old, new, raw[k], raw[k - 1].1 as int, raw[k - 1].3 as int);
        lemma_counts_concat(segs(old, new, raw, i, k - 1, o0, n0),
            seg(old, new, raw[k], raw[k - 1].1 as int, raw[k - 1].3 as int));
    }
}

proof fn lemma_from_mono(raw: Seq<RawHunk>, ol: nat, nl: nat, a: int, b: int)
    requires
        raw_wf(raw, ol, nl),
        0 <= a <= b,
    ensures
        added_from(raw, a) >= added_from(raw, b),
        removed_from(raw, a) >= removed_from(raw, b),
    decreases b - a,
{
    if a < b {
        lemma_from_mono(raw, ol, nl, a + 1, b);
        if a < raw.len() {
            assert(raw[a].2 <= raw[a].3 && raw[a].0 <= raw[a].1);
        }
    }
}

/// A hunk's added lines are those of the regions it merges, and so are its
/// removed lines.
pub proof fn hunk_counts_law(old: Seq<Seq<char>>, new: Seq<Seq<char>>, raw: Seq<RawHunk>, ctx: u32, i: int)
    requires
        raw_wf(raw, old.len(), new.len()),
        old.len() + 2 * ctx < u32::MAX,
        new.len() + 2 * ctx < u32::MAX,
        0 <= i < raw.len(),
        group_start(raw, i, ctx),
    ensures
        i <= group_end(raw, i, ctx) < raw.len(),
        added_lines(hunk_spec(old, new, raw, ctx, i).lines) == added_from(raw, i) - added_from(raw, group_end(raw, i, ctx) + 1),
        removed_lines(hunk_spec(old, new, raw, ctx, i).lines) == removed_from(raw, i) - removed_from(raw, group_end(raw, i, ctx) + 1),
{
    reveal(hunk_spec);
    lemma_group_end(raw, i, ctx);
    let j = group_end(raw, i, ctx);
    lemma_chain(raw, old.len(), new.len(), i, j);
    let o_start = sat_sub(raw[i].0, ctx);
    let n_start = sat_sub(raw[i].2, ctx);
    let o_end = min_add(raw[j].1, ctx, old.len());
    let body = segs(old, new, raw, i, j, o_start as int, n_start as int);
    let tail = ctx_run(old, raw[j].1 as int, o_end as int, raw[j].3 as int);
    lemma_segs_counts(old, new, raw, i, j, o_start as int, n_start as int);
    lemma_run_counts(old, new, raw[j].1 as int, o_end as int, raw[j].3 as int);
    lemma_counts_concat(body, tail);
    let lines = body + tail;
    assert forall|x: int| 0 <= x < lines.len() implies (#[trigger] emphasized(lines)[x]).kind == lines[x].kind by {}
    lemma_counts_same_kinds(emphasized(lines), lines);
}

/// The hunks built from well-formed change regions hold exactly the regions'
/// added and removed lines, and where every region changes something, every
/// hunk holds at least one added or removed line.
pub proof fn hunks_totals_law(old: Seq<Seq<char>>, new: Seq<Seq<char>>, raw: Seq<RawHunk>, ctx: u32, i: int)
    requires
        raw_wf(raw, old.len(), new.len()),
        old.len() + 2 * ctx < u32::MAX,
        new.len() + 2 * ctx < u32::MAX,
        0 <= i <= raw.len(),
        i < raw.len() ==> group_start(raw, i, ctx),
    ensures
        hunks_added(hunks_from(old, new, raw, ctx, i)) == added_from(raw, i),
        hunks_removed(hunks_from(old, new, raw, ctx, i)) == removed_from(raw, i),
        raw_nonempty(raw) ==> forall|h: int| 0 <= h < hunks_from(old, new, raw, ctx, i).len() ==>
            added_lines((#[trigger] hunks_from(old, new, raw, ctx, i)[h]).lines)
                + removed_lines(hunks_from(old, new, raw, ctx, i)[h].lines) > 0,
    decreases raw.len() - i,
{
    if i < raw.len() {
        hunk_counts_law(old, new, raw, ctx, i);
        let j = group_end(raw, i, ctx);
        lemma_group_end(raw, i, ctx);
        hunks_totals_law(old, new, raw, ctx, j + 1);
        let hs = hunks_from(old, new, raw, ctx, i);
        let rest = hunks_from(old, new, raw, ctx, j + 1);
        let h0 = hunk_spec(old, new, raw, ctx, i);
        assert(hs == seq![h0] + rest);
        assert(hs.drop_first() =~= rest);
        lemma_from_mono(raw, old.len(), new.len(), i + 1, j + 1);
        if raw_nonempty(raw) {
            assert(raw[i].0 < raw[i].1 || raw[i].2 < raw[i].3);
            assert forall|h: int| 0 <= h < hs.len() implies
                added_lines((#[trigger] hs[h]).lines) + removed_lines(hs[h].lines) > 0 by {
                if h > 0 {
                    assert(hs[h] == rest[h - 1]);
                }
            }
        }
    }
}

} // verus!
