//! Intra-line emphasis: paired removed/added lines get the char range that
//! changed between them highlighted.

use vstd::prelude::*;
use crate::model::{Line, LineKind, LineV, lines_view};
use crate::text::chars_of;

verus! {

/// Length of the longest common prefix of `o` and `n`.
pub open spec fn common_prefix(o: Seq<char>, n: Seq<char>) -> nat
    decreases o.len(),
{
    if o.len() > 0 && n.len() > 0 && o[0] == n[0] {
        1 + common_prefix(o.drop_first(), n.drop_first())
    } else {
        0
    }
}

/// Length of the longest common suffix of `o` and `n`.
pub open spec fn common_suffix(o: Seq<char>, n: Seq<char>) -> nat
    decreases o.len(),
{
    if o.len() > 0 && n.len() > 0 && o.last() == n.last() {
        1 + common_suffix(o.drop_last(), n.drop_last())
    } else {
        0
    }
}

proof fn lemma_common_prefix(o: Seq<char>, n: Seq<char>, p: int)
    requires
        0 <= p <= o.len(),
        p <= n.len(),
        forall|t: int| 0 <= t < p ==> o[t] == n[t],
        p == o.len() || p == n.len() || o[p] != n[p],
    ensures
        common_prefix(o, n) == p,
    decreases p,
{
    if p > 0 {
        assert(o[0] == n[0]);
        lemma_common_prefix(o.drop_first(), n.drop_first(), p - 1);
    }
}

/// The `t`-th character of `s` counted from its end (0 is the last).
pub open spec fn from_end(s: Seq<char>, t: int) -> char {
    s[s.len() - 1 - t]
}

proof fn lemma_common_suffix(o: Seq<char>, n: Seq<char>, s: int)
    requires
        0 <= s <= o.len(),
        s <= n.len(),
        forall|t: int| 0 <= t < s ==> #[trigger] from_end(o, t) == from_end(n, t),
        s == o.len() || s == n.len() || from_end(o, s) != from_end(n, s),
    ensures
        common_suffix(o, n) == s,
    decreases s,
{
    if s > 0 {
        assert(o.last() == n.last()) by {
            assert(from_end(o, 0) == from_end(n, 0));
        }
        let o2 = o.drop_last();
        let n2 = n.drop_last();
        assert forall|t: int| 0 <= t < s - 1 implies #[trigger] from_end(o2, t) == from_end(n2, t) by {
            assert(from_end(o, t + 1) == from_end(n, t + 1));
        }
        lemma_common_suffix(o2, n2, s - 1);
    }
}

/// Changed char ranges `[start, end)` of a paired old/new line: the common
/// prefix is trimmed, then the common suffix of what remains. `(None, None)`
/// when the lines share nothing at either end; otherwise a side is `None`
/// when nothing of it remains between prefix and suffix.
pub open spec fn intra_spec(o: Seq<char>, n: Seq<char>) -> (Option<(u32, u32)>, Option<(u32, u32)>) {
    let p = common_prefix(o, n);
    let s = common_suffix(o.skip(p as int), n.skip(p as int));
    if p == 0 && s == 0 {
        (None, None)
    } else {
        (
            if p < o.len() - s { Some((p as u32, (o.len() - s) as u32)) } else { None },
            if p < n.len() - s { Some((p as u32, (n.len() - s) as u32)) } else { None },
        )
    }
}

/// Char ranges that differ between `old` and `new` (see [`intra_spec`]).
pub(crate) fn intra_ranges(old: &str, new: &str) -> (r: (Option<(u32, u32)>, Option<(u32, u32)>))
    requires
        old@.len() <= u32::MAX,
        new@.len() <= u32::MAX,
    ensures
        r == intra_spec(old@, new@),
{
    let o = chars_of(old);
    let n = chars_of(new);
    let mut p: usize = 0;
    while p < o.len() && p < n.len() && o[p] == n[p]
        invariant
            p <= o@.len(),
            p <= n@.len(),
            o@ == old@,
            n@ == new@,
            forall|t: int| 0 <= t < p ==> o@[t] == n@[t],
        decreases o@.len() - p,
    {
        p = p + 1;
    }
    proof {
        lemma_common_prefix(o@, n@, p as int);
    }
    let mut s: usize = 0;
    while s < o.len() - p && s < n.len() - p && o[o.len() - 1 - s] == n[n.len() - 1 - s]
        invariant
            p <= o@.len(),
            p <= n@.len(),
            s <= o@.len() - p,
            s <= n@.len() - p,
            o@ == old@,
            n@ == new@,
            forall|t: int| 0 <= t < s ==> #[trigger] from_end(o@, t) == from_end(n@, t),
        decreases o@.len() - s,
    {
        s = s + 1;
    }
    proof {
        let os = o@.skip(p as int);
        let ns = n@.skip(p as int);
        assert forall|t: int| 0 <= t < s implies #[trigger] from_end(os, t) == from_end(ns, t) by {
            assert(from_end(os, t) == from_end(o@, t));
            assert(from_end(ns, t) == from_end(n@, t));
        }
        if !(s == os.len() || s == ns.len()) {
            assert(from_end(os, s as int) == from_end(o@, s as int));
            assert(from_end(ns, s as int) == from_end(n@, s as int));
        }
        lemma_common_suffix(os, ns, s as int);
    }
    if p == 0 && s == 0 {
        return (None, None);
    }
    let o_range = if p < o.len() - s { Some((p as u32, (o.len() - s) as u32)) } else { None };
    let n_range = if p < n.len() - s { Some((p as u32, (n.len() - s) as u32)) } else { None };
    (o_range, n_range)
}


/// Start of the run of `k`-lines that ends just before `x` (walking back).
pub open spec fn run_start(ls: Seq<LineV>, x: int, k: LineKind) -> int
    decreases x,
{
    if x > 0 && ls[x - 1].kind == k {
        run_start(ls, x - 1, k)
    } else {
        x
    }
}

/// End of the run of `k`-lines that starts at `x` (walking forward).
pub open spec fn run_end(ls: Seq<LineV>, x: int, k: LineKind) -> int
    decreases ls.len() - x,
{
    if 0 <= x < ls.len() && ls[x].kind == k {
        run_end(ls, x + 1, k)
    } else {
        x
    }
}

/// The emphasis line `x` carries after pairing: the k-th line of a run of
/// removed lines is paired with the k-th line of the run of added lines that
/// directly follows it (as many pairs as the shorter run has lines), and each
/// paired side gets its [`intra_spec`] range. Every other line keeps its
/// emphasis.
pub open spec fn emph_at(ls: Seq<LineV>, x: int) -> Option<(u32, u32)> {
    let l = ls[x];
    if l.kind == LineKind::Removed {
        let rs = run_start(ls, x, LineKind::Removed);
        let re = run_end(ls, x, LineKind::Removed);
        let ae = run_end(ls, re, LineKind::Added);
        let pairs = if re - rs < ae - re { re - rs } else { ae - re };
        if x - rs < pairs {
            intra_spec(l.text, ls[re + (x - rs)].text).0
        } else {
            l.emphasis
        }
    } else if l.kind == LineKind::Added {
        let a0 = run_start(ls, x, LineKind::Added);
        if a0 > 0 && ls[a0 - 1].kind == LineKind::Removed {
            let rs = run_start(ls, a0, LineKind::Removed);
            let ae = run_end(ls, x, LineKind::Added);
            let pairs = if a0 - rs < ae - a0 { a0 - rs } else { ae - a0 };
            if x - a0 < pairs {
                intra_spec(ls[rs + (x - a0)].text, l.text).1
            } else {
                l.emphasis
            }
        } else {
            l.emphasis
        }
    } else {
        l.emphasis
    }
}

/// `ls` with every line's emphasis replaced by [`emph_at`].
pub open spec fn emphasized(ls: Seq<LineV>) -> Seq<LineV> {
    Seq::new(ls.len(), |x: int| LineV { emphasis: emph_at(ls, x), ..ls[x] })
}

proof fn lemma_run_start(ls: Seq<LineV>, rs: int, x: int, k: LineKind)
    requires
        0 <= rs <= x <= ls.len(),
        forall|t: int| rs <= t < x ==> #[trigger] ls[t].kind == k,
        rs == 0 || ls[rs - 1].kind != k,
    ensures
        run_start(ls, x, k) == rs,
    decreases x - rs,
{
    if x > rs {
        lemma_run_start(ls, rs, x - 1, k);
    }
}

proof fn lemma_run_end(ls: Seq<LineV>, x: int, re: int, k: LineKind)
    requires
        0 <= x <= re <= ls.len(),
        forall|t: int| x <= t < re ==> #[trigger] ls[t].kind == k,
        re == ls.len() || ls[re].kind != k,
    ensures
        run_end(ls, x, k) == re,
    decreases re - x,
{
    if x < re {
        lemma_run_end(ls, x + 1, re, k);
    }
}

/// Whether position `i` sits strictly inside a removed run, or inside an added
/// run that follows a removed run (the positions a pairing pass never starts at).
pub open spec fn inside_pairing(ls: Seq<LineV>, i: int) -> bool {
    ||| (0 < i < ls.len() && ls[i].kind == LineKind::Removed && ls[i - 1].kind == LineKind::Removed)
    ||| (0 <= i < ls.len() && ls[i].kind == LineKind::Added && run_start(ls, i, LineKind::Added) > 0
        && ls[run_start(ls, i, LineKind::Added) - 1].kind == LineKind::Removed)
}

/// Every line's text fits a `u32` char count.
pub open spec fn texts_fit(ls: Seq<LineV>) -> bool {
    forall|x: int| 0 <= x < ls.len() ==> (#[trigger] ls[x]).text.len() <= u32::MAX
}

fn set_emphasis(lines: &mut Vec<Line>, x: usize, e: Option<(u32, u32)>)
    requires
        x < old(lines)@.len(),
    ensures
        final(lines)@.len() == old(lines)@.len(),
        forall|t: int| 0 <= t < old(lines)@.len() && t != x ==> final(lines)@[t] == old(lines)@[t],
        final(lines)@[x as int]@ == (LineV { emphasis: e, ..old(lines)@[x as int]@ }),
{
    lines[x].emphasis = e;
}

/// Set intra-line emphasis ranges by pairing each removed line with the
/// corresponding added line in the same change (see [`emphasized`]).
#[verifier::rlimit(40)]
pub(crate) fn emphasize_intra_line(lines: &mut Vec<Line>)
    requires
        texts_fit(lines_view(old(lines)@)),
    ensures
        lines_view(final(lines)@) == emphasized(lines_view(old(lines)@)),
{
    let ghost orig = lines_view(lines@);
    let len = lines.len();
    let mut i: usize = 0;
    while i < len
        invariant
            len == orig.len(),
            lines@.len() == len,
            i <= len,
            texts_fit(orig),
            orig == lines_view(old(lines)@),
            forall|x: int| 0 <= x < len ==> (#[trigger] lines@[x])@ == (LineV { emphasis: lines@[x].emphasis, ..orig[x] }),
            forall|x: int| 0 <= x < i ==> (#[trigger] lines@[x]).emphasis == emph_at(orig, x),
            forall|x: int| i <= x < len ==> (#[trigger] lines@[x]).emphasis == orig[x].emphasis,
            !inside_pairing(orig, i as int),
        decreases len - i,
    {
        if lines[i].kind != LineKind::Removed {
            proof {
                assert(orig[i as int].kind == lines@[i as int].kind);
                if orig[i as int].kind == LineKind::Added {
                    if i + 1 < len && orig[i + 1].kind == LineKind::Added {
                        assert(run_start(orig, i + 1, LineKind::Added) == run_start(orig, i as int, LineKind::Added));
                    }
                } else {
                    if i + 1 < len && orig[i + 1].kind == LineKind::Added {
                        assert(run_start(orig, i + 1, LineKind::Added) == i + 1);
                    }
                }
                assert(emph_at(orig, i as int) == orig[i as int].emphasis);
            }
            i = i + 1;
            continue;
        }
        let rem_start = i;
        while i < len && lines[i].kind == LineKind::Removed
            invariant
                rem_start <= i <= len,
                lines@.len() == len,
                len == orig.len(),
                forall|x: int| 0 <= x < len ==> (#[trigger] lines@[x])@ == (LineV { emphasis: lines@[x].emphasis, ..orig[x] }),
                forall|t: int| rem_start <= t < i ==> (#[trigger] orig[t]).kind == LineKind::Removed,
            decreases len - i,
        {
            assert(lines@[i as int]@.kind == orig[i as int].kind);
            i = i + 1;
        }
        let add_start = i;
        while i < len && lines[i].kind == LineKind::Added
            invariant
                add_start <= i <= len,
                lines@.len() == len,
                len == orig.len(),
                forall|x: int| 0 <= x < len ==> (#[trigger] lines@[x])@ == (LineV { emphasis: lines@[x].emphasis, ..orig[x] }),
                forall|t: int| add_start <= t < i ==> (#[trigger] orig[t]).kind == LineKind::Added,
            decreases len - i,
        {
            assert(lines@[i as int]@.kind == orig[i as int].kind);
            i = i + 1;
        }
        let ghost rs = rem_start as int;
        let ghost re = add_start as int;
        let ghost ae = i as int;
        proof {
            assert(rs == 0 || orig[rs - 1].kind != LineKind::Removed) by {
                if rs > 0 && orig[rs - 1].kind == LineKind::Removed {
                    assert(inside_pairing(orig, rs));
                }
            }
            if re < len {
                assert(lines@[re]@.kind == orig[re].kind);
            }
            if ae < len {
                assert(lines@[ae]@.kind == orig[ae].kind);
            }
        }
        let a = add_start - rem_start;
        let b = i - add_start;
        let pairs = if a < b { a } else { b };
        let mut k: usize = 0;
        while k < pairs
            invariant
                k <= pairs,
                pairs <= add_start - rem_start,
                pairs <= i - add_start,
                pairs == (if re - rs < ae - re { re - rs } else { ae - re }),
                rs == rem_start,
                re == add_start,
                ae == i,
                rem_start < add_start <= i <= len,
                lines@.len() == len,
                len == orig.len(),
                texts_fit(orig),
                forall|x: int| 0 <= x < len ==> (#[trigger] lines@[x])@ == (LineV { emphasis: lines@[x].emphasis, ..orig[x] }),
                forall|x: int| 0 <= x < rem_start ==> (#[trigger] lines@[x]).emphasis == emph_at(orig, x),
                forall|x: int| i <= x < len ==> (#[trigger] lines@[x]).emphasis == orig[x].emphasis,
                forall|x: int| rem_start <= x < add_start ==> (#[trigger] lines@[x]).emphasis
                    == (if x - rem_start < k { intra_spec(orig[x].text, orig[add_start + (x - rem_start)].text).0 } else { orig[x].emphasis }),
                forall|x: int| add_start <= x < i ==> (#[trigger] lines@[x]).emphasis
                    == (if x - add_start < k { intra_spec(orig[rem_start + (x - add_start)].text, orig[x].text).1 } else { orig[x].emphasis }),
            decreases pairs - k,
        {
            let ghost before = lines@;
            assert(lines@[(rem_start + k) as int]@.text == orig[(rem_start + k) as int].text);
            assert(lines@[(add_start + k) as int]@.text == orig[(add_start + k) as int].text);
            let (o, n) = intra_ranges(&lines[rem_start + k].text, &lines[add_start + k].text);
            set_emphasis(lines, rem_start + k, o);
            set_emphasis(lines, add_start + k, n);
            k = k + 1;
        }
        proof {
            assert forall|x: int| rs <= x < re implies emph_at(orig, x) == (#[trigger] lines@[x]).emphasis by {
                lemma_run_start(orig, rs, x, LineKind::Removed);
                lemma_run_end(orig, x, re, LineKind::Removed);
                lemma_run_end(orig, re, ae, LineKind::Added);
            }
            assert forall|x: int| re <= x < ae implies emph_at(orig, x) == (#[trigger] lines@[x]).emphasis by {
                lemma_run_start(orig, re, x, LineKind::Added);
                lemma_run_start(orig, rs, re, LineKind::Removed);
                lemma_run_end(orig, x, ae, LineKind::Added);
            }
            if ae < len && orig[ae].kind == LineKind::Added {
                lemma_run_end(orig, re, ae, LineKind::Added);
            }
        }
    }
    proof {
        assert(lines_view(lines@) =~= emphasized(orig));
    }
}


/// Pairing only touches emphasis: every line keeps its kind, numbers and text.
pub proof fn emphasis_keeps_lines_law(ls: Seq<LineV>)
    ensures
        emphasized(ls).len() == ls.len(),
        forall|x: int| 0 <= x < ls.len() ==> {
            &&& (#[trigger] emphasized(ls)[x]).kind == ls[x].kind
            &&& emphasized(ls)[x].old_lineno == ls[x].old_lineno
            &&& emphasized(ls)[x].new_lineno == ls[x].new_lineno
            &&& emphasized(ls)[x].text == ls[x].text
            &&& ls[x].kind == LineKind::Context ==> emphasized(ls)[x].emphasis == ls[x].emphasis
        },
{
}

/// Within a change made of a maximal run of removed lines `[r, a)` and the
/// maximal run of added lines `[a, e)` right after it, the k-th removed line is
/// paired with the k-th added line for `k` below the shorter run's length, and
/// both get their intra-line ranges; the unpaired lines of the change keep
/// their emphasis.
pub proof fn emphasis_pairing_law(ls: Seq<LineV>, r: int, a: int, e: int)
    requires
        0 <= r < a <= e <= ls.len(),
        r == 0 || ls[r - 1].kind != LineKind::Removed,
        forall|t: int| r <= t < a ==> #[trigger] ls[t].kind == LineKind::Removed,
        a == ls.len() || ls[a].kind != LineKind::Removed,
        forall|t: int| a <= t < e ==> #[trigger] ls[t].kind == LineKind::Added,
        e == ls.len() || ls[e].kind != LineKind::Added,
    ensures
        forall|x: int| r <= x < e ==> (#[trigger] emphasized(ls)[x]).emphasis == ({
            let p = if a - r < e - a { a - r } else { e - a };
            if x < a {
                if x - r < p { intra_spec(ls[x].text, ls[a + (x - r)].text).0 } else { ls[x].emphasis }
            } else {
                if x - a < p { intra_spec(ls[r + (x - a)].text, ls[x].text).1 } else { ls[x].emphasis }
            }
        }),
{
    assert forall|x: int| r <= x < e implies (#[trigger] emphasized(ls)[x]).emphasis == ({
        let p = if a - r < e - a { a - r } else { e - a };
        if x < a {
            if x - r < p { intra_spec(ls[x].text, ls[a + (x - r)].text).0 } else { ls[x].emphasis }
        } else {
            if x - a < p { intra_spec(ls[r + (x - a)].text, ls[x].text).1 } else { ls[x].emphasis }
        }
    }) by {
        if a < ls.len() {
            lemma_run_end(ls, a, e, LineKind::Added);
        } else {
            assert(run_end(ls, a, LineKind::Added) == a);
        }
        if x < a {
            assert(ls[x].kind == LineKind::Removed);
            lemma_run_start(ls, r, x, LineKind::Removed);
            lemma_run_end(ls, x, a, LineKind::Removed);
        } else {
            assert(ls[x].kind == LineKind::Added);
            assert(ls[a - 1].kind == LineKind::Removed);
            lemma_run_start(ls, a, x, LineKind::Added);
            lemma_run_start(ls, r, a, LineKind::Removed);
            lemma_run_end(ls, x, e, LineKind::Added);
        }
    }
}

/// Added lines that do not follow removed lines are paired with nothing and
/// keep their emphasis.
pub proof fn emphasis_lone_added_law(ls: Seq<LineV>, a: int, e: int)
    requires
        0 <= a <= e <= ls.len(),
        a == 0 || ls[a - 1].kind == LineKind::Context,
        forall|t: int| a <= t < e ==> #[trigger] ls[t].kind == LineKind::Added,
    ensures
        forall|x: int| a <= x < e ==> (#[trigger] emphasized(ls)[x]).emphasis == ls[x].emphasis,
{
    assert forall|x: int| a <= x < e implies (#[trigger] emphasized(ls)[x]).emphasis == ls[x].emphasis by {
        lemma_run_start(ls, a, x, LineKind::Added);
    }
}

/// The common prefix is shared and as long as possible: the first `p` chars
/// agree, and the texts end or differ right after them.
pub proof fn common_prefix_law(o: Seq<char>, n: Seq<char>)
    ensures
        common_prefix(o, n) <= o.len(),
        common_prefix(o, n) <= n.len(),
        o.take(common_prefix(o, n) as int) == n.take(common_prefix(o, n) as int),
        common_prefix(o, n) == o.len() || common_prefix(o, n) == n.len()
            || o[common_prefix(o, n) as int] != n[common_prefix(o, n) as int],
    decreases o.len(),
{
    if o.len() > 0 && n.len() > 0 && o[0] == n[0] {
        common_prefix_law(o.drop_first(), n.drop_first());
        let p = common_prefix(o, n) as int;
        assert(o.take(p) =~= seq![o[0]] + o.drop_first().take(p - 1));
        assert(n.take(p) =~= seq![n[0]] + n.drop_first().take(p - 1));
    } else {
        assert(o.take(0) =~= n.take(0));
    }
}

/// The common suffix is shared and as long as possible: the last `s` chars
/// agree, and the texts end or differ right before them.
pub proof fn common_suffix_law(o: Seq<char>, n: Seq<char>)
    ensures
        common_suffix(o, n) <= o.len(),
        common_suffix(o, n) <= n.len(),
        o.skip(o.len() - common_suffix(o, n)) == n.skip(n.len() - common_suffix(o, n)),
        common_suffix(o, n) == o.len() || common_suffix(o, n) == n.len()
            || o[o.len() - 1 - common_suffix(o, n)] != n[n.len() - 1 - common_suffix(o, n)],
    decreases o.len(),
{
    if o.len() > 0 && n.len() > 0 && o.last() == n.last() {
        common_suffix_law(o.drop_last(), n.drop_last());
        let k = common_suffix(o, n) as int;
        assert(o.skip(o.len() - k) =~= o.drop_last().skip(o.len() - k).push(o.last()));
        assert(n.skip(n.len() - k) =~= n.drop_last().skip(n.len() - k).push(n.last()));
    } else {
        assert(o.skip(o.len() as int) =~= n.skip(n.len() as int));
    }
}

/// A line paired with an identical line has nothing emphasized.
pub proof fn identical_lines_law(o: Seq<char>)
    ensures
        intra_spec(o, o) == (None::<(u32, u32)>, None::<(u32, u32)>),
{
    common_prefix_law(o, o);
    let p = common_prefix(o, o) as int;
    assert(p == o.len());
    assert(o.skip(p).len() == 0);
}

} // verus!
