//! A tiny case-insensitive subsequence fuzzy matcher for the file palette.

use vstd::prelude::*;
use crate::text::{chars_of, lowercase, to_lowercase};

verus! {

/// Greedy left-to-right subsequence walk of `q` over `t` from text position
/// `ti`, query position `qi`, running score `s` and last matched position
/// `last`: each matched char scores 1, plus 6 when it directly follows the
/// previous match and 4 at text position 0. Returns the final query position
/// and score.
pub open spec fn walk(q: Seq<char>, t: Seq<char>, ti: int, qi: int, s: int, last: Option<int>) -> (int, int)
    decreases t.len() - ti,
{
    if ti < 0 || ti >= t.len() {
        (qi, s)
    } else if qi < q.len() && t[ti] == q[qi] {
        let bonus = (if last == Some(ti - 1) { 6int } else { 0int }) + (if ti == 0 { 4int } else { 0int }) + 1;
        walk(q, t, ti + 1, qi + 1, s + bonus, Some(ti))
    } else {
        walk(q, t, ti + 1, qi, s, last)
    }
}

/// The score of lowercased query `q` against lowercased text `t`: `Some(0)`
/// for an empty query, `None` unless `q` is a subsequence of `t`, otherwise the
/// walk's score minus `t.len() / 12` (a mild preference for shorter paths).
/// A score that does not fit an `i32` is `None`: the walk's running sum passed
/// `i32::MAX`, or the length penalty took the result below `i32::MIN`.
pub open spec fn score_spec(q: Seq<char>, t: Seq<char>) -> Option<i32> {
    if q.len() == 0 {
        Some(0i32)
    } else {
        let (qi, s) = walk(q, t, 0, 0, 0, None);
        let v = s - t.len() / 12;
        if qi == q.len() && s <= i32::MAX && i32::MIN <= v {
            Some(v as i32)
        } else {
            None
        }
    }
}

proof fn lemma_walk_step(q: Seq<char>, t: Seq<char>, ti: int, qi: int, s: int, last: Option<int>)
    requires
        0 <= ti < t.len(),
    ensures
        walk(q, t, ti, qi, s, last) == (if qi < q.len() && t[ti] == q[qi] {
            walk(q, t, ti + 1, qi + 1, s + (if last == Some(ti - 1) { 6int } else { 0int }) + (if ti == 0 { 4int } else { 0int }) + 1, Some(ti))
        } else {
            walk(q, t, ti + 1, qi, s, last)
        }),
{
}

/// The walk's score never drops below its running sum.
proof fn lemma_walk_grows(q: Seq<char>, t: Seq<char>, ti: int, qi: int, s: int, last: Option<int>)
    ensures
        walk(q, t, ti, qi, s, last).1 >= s,
    decreases t.len() - ti,
{
    if 0 <= ti < t.len() {
        lemma_walk_step(q, t, ti, qi, s, last);
        if qi < q.len() && t[ti] == q[qi] {
            lemma_walk_grows(q, t, ti + 1, qi + 1, s + (if last == Some(ti - 1) { 6int } else { 0int }) + (if ti == 0 { 4int } else { 0int }) + 1, Some(ti));
        } else {
            lemma_walk_grows(q, t, ti + 1, qi, s, last);
        }
    }
}

/// `q` is a subsequence of `t`: every position of `q` maps to a position of
/// `t` holding the same char, the positions strictly increasing.
pub open spec fn is_subsequence(q: Seq<char>, t: Seq<char>) -> bool {
    exists|m: Seq<int>| #[trigger] match_map(q, t, m)
}

/// `m` maps each position of `q` to a position of `t` with the same char, in
/// strictly increasing order.
pub open spec fn match_map(q: Seq<char>, t: Seq<char>, m: Seq<int>) -> bool {
    &&& m.len() == q.len()
    &&& forall|i: int| 0 <= i < m.len() ==> 0 <= #[trigger] m[i] < t.len() && t[m[i]] == q[i]
    &&& forall|i: int, j: int| 0 <= i < j < m.len() ==> m[i] < m[j]
}

/// Along the walk, the matched prefix of `q` extends to a full match when the
/// walk ends having matched all of `q`.
proof fn lemma_walk_match(q: Seq<char>, t: Seq<char>, ti: int, qi: int, s: int, last: Option<int>, m: Seq<int>)
    -> (full: Seq<int>)
    requires
        0 <= ti,
        0 <= qi <= q.len(),
        m.len() == qi,
        forall|i: int| 0 <= i < m.len() ==> 0 <= #[trigger] m[i] < ti && m[i] < t.len() && t[m[i]] == q[i],
        forall|i: int, j: int| 0 <= i < j < m.len() ==> m[i] < m[j],
        walk(q, t, ti, qi, s, last).0 == q.len(),
    ensures
        match_map(q, t, full),
    decreases t.len() - ti,
{
    if ti >= t.len() {
        m
    } else if qi < q.len() && t[ti] == q[qi] {
        let bonus = (if last == Some(ti - 1) { 6int } else { 0int }) + (if ti == 0 { 4int } else { 0int }) + 1;
        lemma_walk_match(q, t, ti + 1, qi + 1, s + bonus, Some(ti), m.push(ti))
    } else {
        lemma_walk_match(q, t, ti + 1, qi, s, last, m)
    }
}

/// The walk matches greedily: when the rest of `q` from `qi` can be matched at
/// positions from `ti` on, the walk matches all of `q`.
proof fn lemma_walk_finds(q: Seq<char>, t: Seq<char>, ti: int, qi: int, s: int, last: Option<int>, m: Seq<int>)
    requires
        0 <= ti,
        0 <= qi <= q.len(),
        m.len() == q.len(),
        forall|i: int| qi <= i < m.len() ==> ti <= #[trigger] m[i] < t.len() && t[m[i]] == q[i],
        forall|i: int, j: int| qi <= i < j < m.len() ==> m[i] < m[j],
    ensures
        walk(q, t, ti, qi, s, last).0 == q.len(),
    decreases t.len() - ti,
{
    if qi == q.len() {
        lemma_walk_keeps(q, t, ti, qi, s, last);
    } else if ti >= t.len() {
        assert(ti <= m[qi] < t.len());
    } else if t[ti] == q[qi] {
        let bonus = (if last == Some(ti - 1) { 6int } else { 0int }) + (if ti == 0 { 4int } else { 0int }) + 1;
        assert forall|i: int| qi + 1 <= i < m.len() implies ti + 1 <= #[trigger] m[i] < t.len() && t[m[i]] == q[i] by {
            assert(m[qi] < m[i]);
        }
        lemma_walk_finds(q, t, ti + 1, qi + 1, s + bonus, Some(ti), m);
    } else {
        assert(m[qi] != ti);
        assert forall|i: int| qi <= i < m.len() implies ti + 1 <= #[trigger] m[i] < t.len() && t[m[i]] == q[i] by {
            if i > qi {
                assert(m[qi] < m[i]);
            }
        }
        lemma_walk_finds(q, t, ti + 1, qi, s, last, m);
    }
}

/// Once all of `q` is matched the walk matches nothing more.
proof fn lemma_walk_keeps(q: Seq<char>, t: Seq<char>, ti: int, qi: int, s: int, last: Option<int>)
    requires
        qi == q.len(),
    ensures
        walk(q, t, ti, qi, s, last).0 == q.len(),
    decreases t.len() - ti,
{
    if 0 <= ti < t.len() {
        lemma_walk_keeps(q, t, ti + 1, qi, s, last);
    }
}

/// The walk's score grows by at most 7 per matched char, plus 4 for a match
/// at the text's start.
proof fn lemma_walk_bound(q: Seq<char>, t: Seq<char>, ti: int, qi: int, s: int, last: Option<int>)
    requires
        0 <= ti,
        0 <= qi <= q.len(),
    ensures
        qi <= walk(q, t, ti, qi, s, last).0 <= q.len(),
        walk(q, t, ti, qi, s, last).1 <= s + 7 * (walk(q, t, ti, qi, s, last).0 - qi) + (if ti == 0 { 4int } else { 0int }),
    decreases t.len() - ti,
{
    if ti < t.len() {
        if qi < q.len() && t[ti] == q[qi] {
            let bonus = (if last == Some(ti - 1) { 6int } else { 0int }) + (if ti == 0 { 4int } else { 0int }) + 1;
            lemma_walk_bound(q, t, ti + 1, qi + 1, s + bonus, Some(ti));
        } else {
            lemma_walk_bound(q, t, ti + 1, qi, s, last);
        }
    }
}

/// A non-empty query scores only when it is a subsequence of the text, and
/// every subsequence query scores (short of a score beyond the `i32` range:
/// queries up to 300,000,000 chars and texts up to 25,000,000,000 chars always
/// fit). An empty query scores 0.
pub proof fn score_subsequence_law(q: Seq<char>, t: Seq<char>)
    ensures
        q.len() == 0 ==> score_spec(q, t) == Some(0i32),
        q.len() > 0 && score_spec(q, t) is Some ==> is_subsequence(q, t),
        q.len() > 0 && is_subsequence(q, t) && q.len() <= 300_000_000 && t.len() <= 25_000_000_000
            ==> score_spec(q, t) is Some,
{
    if q.len() > 0 {
        if walk(q, t, 0, 0, 0, None).0 == q.len() {
            let m = lemma_walk_match(q, t, 0, 0, 0, None, Seq::empty());
            assert(match_map(q, t, m));
        }
        if is_subsequence(q, t) {
            let m = choose|m: Seq<int>| #[trigger] match_map(q, t, m);
            lemma_walk_finds(q, t, 0, 0, 0, None, m);
            lemma_walk_bound(q, t, 0, 0, 0, None);
            lemma_walk_grows(q, t, 0, 0, 0, None);
        }
    }
}

proof fn lemma_walk_exact(q: Seq<char>, ti: int, s: int)
    requires
        1 <= ti <= q.len(),
    ensures
        walk(q, q, ti, ti, s, Some(ti - 1)) == (q.len() as int, s + 7 * (q.len() - ti)),
    decreases q.len() - ti,
{
    if ti < q.len() {
        lemma_walk_exact(q, ti + 1, s + 7);
    }
}

/// A query scored against itself matches every char in one run from the
/// start: 5 for the first char, 7 for each further one, less the length
/// penalty (`len / 12`).
pub proof fn exact_match_law(q: Seq<char>)
    requires
        0 < q.len() <= 300_000_000,
    ensures
        score_spec(q, q) == Some((7 * q.len() - 2 - q.len() / 12) as i32),
{
    lemma_walk_step(q, q, 0, 0, 0, None);
    lemma_walk_exact(q, 1, 5);
}

/// Score already-lowercased `q` against `t` (see [`score_spec`]).
pub fn score_lowered(q: &[char], t: &[char]) -> (r: Option<i32>)
    ensures
        r == score_spec(q@, t@),
{
    if q.len() == 0 {
        return Some(0);
    }
    let mut qi: usize = 0;
    let mut s: i64 = 0;
    let mut last: Option<usize> = None;
    let mut ti: usize = 0;
    while ti < t.len()
        invariant
            ti <= t@.len(),
            qi <= q@.len(),
            q@.len() > 0,
            0 <= s <= i32::MAX,
            last matches Some(l) ==> l < ti,
            walk(q@, t@, 0, 0, 0, None) == walk(q@, t@, ti as int, qi as int, s as int,
                match last { Some(l) => Some(l as int), None => None }),
        decreases t@.len() - ti,
    {
        let ghost glast = match last { Some(l) => Some(l as int), None => None::<int> };
        proof {
            lemma_walk_step(q@, t@, ti as int, qi as int, s as int, glast);
        }
        if qi < q.len() && t[ti] == q[qi] {
            let mut bonus: i64 = 1;
            match last {
                Some(lm) => {
                    if ti == lm + 1 {
                        bonus = bonus + 6;
                    }
                }
                None => {}
            }
            if ti == 0 {
                bonus = bonus + 4;
            }
            assert(bonus as int == (if glast == Some(ti - 1) { 6int } else { 0int }) + (if ti == 0 { 4int } else { 0int }) + 1);
            s = s + bonus;
            last = Some(ti);
            qi = qi + 1;
            if s > 2_147_483_647 {
                proof {
                    lemma_walk_grows(q@, t@, ti + 1, qi as int, s as int, Some(ti as int));
                }
                return None;
            }
        }
        ti = ti + 1;
    }
    if qi == q.len() {
        let penalty: i64 = (t.len() / 12) as i64;
        let v: i64 = s - penalty;
        if v < -2_147_483_648 {
            None
        } else {
            Some(v as i32)
        }
    } else {
        None
    }
}

/// Score `text` against `query`, case-insensitively: `None` if `query` is not
/// a subsequence of `text`; higher scores are better matches (contiguous and
/// early runs win). A score that does not fit an `i32` is `None` (see
/// [`score_spec`]).
pub fn score(query: &str, text: &str) -> (r: Option<i32>)
    ensures
        query@.len() == 0 ==> r == Some(0i32),
        query@.len() > 0 ==> r == score_spec(lowercase(query@), lowercase(text@)),
        query@.len() > 0 && lowercase(query@).len() > 0 && r is Some ==> is_subsequence(lowercase(query@), lowercase(text@)),
{
    if query.unicode_len() == 0 {
        return Some(0);
    }
    let q = chars_of(to_lowercase(query).as_str());
    let t = chars_of(to_lowercase(text).as_str());
    proof {
        score_subsequence_law(q@, t@);
    }
    score_lowered(q.as_slice(), t.as_slice())
}

} // verus!
