//! Per-line blame attribution: spreading the blamed ranges a blame run
//! reports over the lines of the file.

use vstd::prelude::*;

verus! {

/// One blamed range: `len` lines from line `start` (0-based) of the blamed
/// file are attributed to commit `commit` (an index into the caller's table
/// of resolved commits).
#[derive(Debug, Clone, Copy)]
pub struct BlameSpan {
    pub start: u32,
    pub len: u32,
    pub commit: usize,
}

/// Whether `s` covers line `i`.
pub open spec fn covers(s: BlameSpan, i: int) -> bool {
    s.start <= i < s.start + s.len
}

/// The line count the spans reach: the largest end, 0 for no spans.
pub open spec fn blame_len(spans: Seq<BlameSpan>) -> int
    decreases spans.len(),
{
    if spans.len() == 0 {
        0
    } else {
        let rest = blame_len(spans.drop_last());
        let e = spans.last().start + spans.last().len;
        if e >= rest { e } else { rest }
    }
}

/// The commit line `i` is attributed to: that of the last span covering it,
/// or none.
pub open spec fn blamed(spans: Seq<BlameSpan>, i: int) -> Option<usize>
    decreases spans.len(),
{
    if spans.len() == 0 {
        None
    } else if covers(spans.last(), i) {
        Some(spans.last().commit)
    } else {
        blamed(spans.drop_last(), i)
    }
}

/// Spread blamed ranges over the file's lines: one entry per line up to the
/// furthest range end, each the commit of the last range covering it (`None`
/// for a line no range covers).
pub fn spread_blame(spans: &[BlameSpan]) -> (r: Vec<Option<usize>>)
    requires
        forall|k: int| 0 <= k < spans@.len() ==> #[trigger] spans@[k].start + spans@[k].len <= u32::MAX,
    ensures
        r@.len() == blame_len(spans@),
        forall|i: int| 0 <= i < r@.len() ==> r@[i] == blamed(spans@, i),
{
    let mut n: usize = 0;
    let mut k: usize = 0;
    while k < spans.len()
        invariant
            k <= spans@.len(),
            forall|j: int| 0 <= j < spans@.len() ==> #[trigger] spans@[j].start + spans@[j].len <= u32::MAX,
            n == blame_len(spans@.take(k as int)),
        decreases spans@.len() - k,
    {
        assert(spans@.take(k + 1).drop_last() =~= spans@.take(k as int));
        let e = (spans[k].start + spans[k].len) as usize;
        if e >= n {
            n = e;
        }
        k = k + 1;
    }
    assert(spans@.take(spans@.len() as int) =~= spans@);
    let mut lines: Vec<Option<usize>> = Vec::new();
    while lines.len() < n
        invariant
            lines@.len() <= n,
            forall|i: int| 0 <= i < lines@.len() ==> lines@[i] is None,
        decreases n - lines@.len(),
    {
        lines.push(None);
    }
    proof {
        lemma_blame_len_covers(spans@);
    }
    let mut k: usize = 0;
    while k < spans.len()
        invariant
            k <= spans@.len(),
            lines@.len() == n,
            n == blame_len(spans@),
            forall|j: int| 0 <= j < spans@.len() ==> #[trigger] spans@[j].start + spans@[j].len <= n,
            forall|j: int| 0 <= j < spans@.len() ==> #[trigger] spans@[j].start + spans@[j].len <= u32::MAX,
            forall|i: int| 0 <= i < n ==> lines@[i] == blamed(spans@.take(k as int), i),
        decreases spans@.len() - k,
    {
        let s = spans[k];
        assert(s.start + s.len <= n);
        assert(s.start + s.len <= u32::MAX);
        let mut m: u32 = 0;
        while m < s.len
            invariant
                m <= s.len,
                s.start + s.len <= n,
                s.start + s.len <= u32::MAX,
                lines@.len() == n,
                s == spans@[k as int],
                forall|i: int| 0 <= i < n ==> lines@[i] == (if s.start <= i < s.start + m {
                    Some(s.commit)
                } else {
                    blamed(spans@.take(k as int), i)
                }),
            decreases s.len - m,
        {
            let at = (s.start + m) as usize;
            lines.set(at, Some(s.commit));
            m = m + 1;
        }
        proof {
            assert(spans@.take(k + 1).drop_last() =~= spans@.take(k as int));
            assert(spans@.take(k + 1).last() == s);
        }
        k = k + 1;
    }
    assert(spans@.take(spans@.len() as int) =~= spans@);
    lines
}

/// Every span ends within [`blame_len`].
proof fn lemma_blame_len_covers(spans: Seq<BlameSpan>)
    ensures
        blame_len(spans) >= 0,
        forall|j: int| 0 <= j < spans.len() ==> #[trigger] spans[j].start + spans[j].len <= blame_len(spans),
    decreases spans.len(),
{
    if spans.len() > 0 {
        lemma_blame_len_covers(spans.drop_last());
        assert forall|j: int| 0 <= j < spans.len() implies #[trigger] spans[j].start + spans[j].len <= blame_len(spans) by {
            if j < spans.len() - 1 {
                assert(spans.drop_last()[j] == spans[j]);
            }
        }
    }
}

/// Every line of a span's range is attributed to the span's commit unless a
/// later span's range also holds it (the last span wins); a line no span's
/// range holds is attributed to nothing.
pub proof fn blame_attribution_law(spans: Seq<BlameSpan>, k: int, i: int)
    ensures
        0 <= k < spans.len() && spans[k].start <= i < spans[k].start + spans[k].len
            && (forall|j: int| k < j < spans.len() ==> !(spans[j].start <= i < #[trigger] spans[j].start + spans[j].len))
            ==> blamed(spans, i) == Some(spans[k].commit),
        (forall|j: int| 0 <= j < spans.len() ==> !(spans[j].start <= i < #[trigger] spans[j].start + spans[j].len))
            ==> blamed(spans, i) is None,
    decreases spans.len(),
{
    if spans.len() > 0 {
        let d = spans.drop_last();
        blame_attribution_law(d, k, i);
        if 0 <= k < spans.len() - 1 {
            assert(d[k] == spans[k]);
            assert(forall|j: int| k < j < d.len() ==> d[j] == spans[j]);
        }
        assert(forall|j: int| 0 <= j < d.len() ==> d[j] == spans[j]);
        let l = spans.len() - 1;
        assert(spans[l].start + spans[l].len == spans.last().start + spans.last().len);
    }
}

/// The attributed line count is the furthest end any span reaches (0 for no
/// spans).
pub proof fn blame_len_law(spans: Seq<BlameSpan>)
    ensures
        forall|j: int| 0 <= j < spans.len() ==> #[trigger] spans[j].start + spans[j].len <= blame_len(spans),
        spans.len() == 0 ==> blame_len(spans) == 0,
        spans.len() > 0 ==> exists|j: int| 0 <= j < spans.len() && blame_len(spans) == #[trigger] spans[j].start + spans[j].len,
    decreases spans.len(),
{
    lemma_blame_len_covers(spans);
    if spans.len() > 0 {
        let d = spans.drop_last();
        blame_len_law(d);
        let l = spans.len() - 1;
        if blame_len(spans) == spans[l].start + spans[l].len {
            assert(spans[l].start + spans[l].len == spans.last().start + spans.last().len);
        } else {
            let j = choose|j: int| 0 <= j < d.len() && blame_len(d) == #[trigger] d[j].start + d[j].len;
            assert(d[j] == spans[j]);
        }
    }
}

} // verus!
