//! Commit records for the commit picker, and the decisions around walking a
//! repository's history: which walked commits the picker lists, and which
//! ids make up a reviewed range.

use vstd::prelude::*;
use crate::text::str_eq;

verus! {

/// Default cap on how many commits the picker enumerates.
pub const COMMIT_CAP: usize = 200;

/// How many commits of each history a range computation walks at most.
pub const RANGE_WALK_LIMIT: usize = 5000;

/// One commit as the picker lists it.
#[derive(Debug, Clone)]
pub struct CommitInfo {
    /// The full hex id.
    pub id: String,
    /// The abbreviated id.
    pub short: String,
    /// The first line of the message.
    pub summary: String,
    pub author: String,
    /// `YYYY-MM-DD`.
    pub date: String,
}

/// One commit's identity and full message body.
#[derive(Debug, Clone)]
pub struct CommitMessage {
    pub sha: String,
    pub short: String,
    pub author: String,
    pub date: String,
    pub body: String,
}

/// What the history walk does with the next commit.
#[derive(Debug, Clone, Copy, PartialEq, Eq, Structural)]
pub enum Admit {
    /// Not listed (excluded, or it does not touch the scoped path).
    Skip,
    /// Listed; the walk goes on.
    Take,
    /// Listed, and the cap is reached: the walk stops, truncated.
    TakeAndStop,
}

/// The decision for the next walked commit when `listed` commits are listed
/// so far under cap `cap`: an excluded commit, or one that does not touch the
/// scoped path, is skipped; otherwise it is listed, and the walk stops once
/// the list reaches the cap.
pub open spec fn admit_spec(listed: int, cap: int, excluded: bool, touches: bool) -> Admit {
    if excluded || !touches {
        Admit::Skip
    } else if listed + 1 >= cap {
        Admit::TakeAndStop
    } else {
        Admit::Take
    }
}

/// Decide what the history walk does with the next commit (see
/// [`admit_spec`]). `touches` is true when no path scopes the walk.
pub fn admit_commit(listed: usize, cap: usize, excluded: bool, touches: bool) -> (r: Admit)
    ensures
        r == admit_spec(listed as int, cap as int, excluded, touches),
{
    if excluded || !touches {
        Admit::Skip
    } else if listed >= cap || cap - listed <= 1 {
        Admit::TakeAndStop
    } else {
        Admit::Take
    }
}

/// The views of a list of strings.
pub open spec fn ids_view(v: Seq<String>) -> Seq<Seq<char>> {
    v.map_values(|s: String| s@)
}

/// The first `RANGE_WALK_LIMIT` entries of a walk.
pub open spec fn walked(s: Seq<Seq<char>>) -> Seq<Seq<char>> {
    if s.len() <= RANGE_WALK_LIMIT { s } else { s.take(RANGE_WALK_LIMIT as int) }
}

/// The ids among the first `n` of `target` that are not in `base`, in walk
/// order.
pub open spec fn not_in(target: Seq<Seq<char>>, base: Seq<Seq<char>>, n: int) -> Seq<Seq<char>>
    decreases n,
{
    if n <= 0 || n > target.len() {
        Seq::empty()
    } else if base.contains(target[n - 1]) {
        not_in(target, base, n - 1)
    } else {
        not_in(target, base, n - 1).push(target[n - 1])
    }
}

/// Whether `id` is among `ids[..n]`.
fn contains_id(ids: &[String], n: usize, id: &str) -> (r: bool)
    requires
        n <= ids@.len(),
    ensures
        r == ids_view(ids@).take(n as int).contains(id@),
{
    let ghost v = ids_view(ids@).take(n as int);
    let mut k: usize = 0;
    while k < n
        invariant
            k <= n <= ids@.len(),
            v == ids_view(ids@).take(n as int),
            forall|j: int| 0 <= j < k ==> v[j] != id@,
        decreases n - k,
    {
        if str_eq(ids[k].as_str(), id) {
            assert(v[k as int] == id@);
            return true;
        }
        k = k + 1;
    }
    false
}

/// The ids in `base..target` from the two history walks (each newest first):
/// those among the first [`RANGE_WALK_LIMIT`] of `target`'s walk that are
/// not among the first [`RANGE_WALK_LIMIT`] of `base`'s, in walk order. Used
/// to exclude a reviewed range's own commits from the picker.
pub fn range_ids(base_walk: &[String], target_walk: &[String]) -> (r: Vec<String>)
    ensures
        ids_view(r@) == not_in(walked(ids_view(target_walk@)), walked(ids_view(base_walk@)),
            walked(ids_view(target_walk@)).len() as int),
{
    let nb = if base_walk.len() <= RANGE_WALK_LIMIT { base_walk.len() } else { RANGE_WALK_LIMIT };
    let nt = if target_walk.len() <= RANGE_WALK_LIMIT { target_walk.len() } else { RANGE_WALK_LIMIT };
    let ghost bw = walked(ids_view(base_walk@));
    let ghost tw = walked(ids_view(target_walk@));
    assert(bw =~= ids_view(base_walk@).take(nb as int));
    assert(tw =~= ids_view(target_walk@).take(nt as int));
    let mut out: Vec<String> = Vec::new();
    let mut k: usize = 0;
    assert(ids_view(out@) =~= Seq::<Seq<char>>::empty());
    while k < nt
        invariant
            k <= nt <= target_walk@.len(),
            nb <= base_walk@.len(),
            bw == ids_view(base_walk@).take(nb as int),
            tw == ids_view(target_walk@).take(nt as int),
            tw.len() == nt,
            ids_view(out@) == not_in(tw, bw, k as int),
        decreases nt - k,
    {
        let id = &target_walk[k];
        assert(tw[k as int] == id@);
        if !contains_id(base_walk, nb, id.as_str()) {
            let ghost before = ids_view(out@);
            out.push(id.clone());
            assert(ids_view(out@) =~= before.push(id@));
        }
        k = k + 1;
    }
    out
}

/// Division truncating toward zero (as Rust's `/` on integers does).
pub open spec fn tdiv(a: int, b: int) -> int {
    if a >= 0 { a / b } else { -((-a) / b) }
}

/// The proleptic Gregorian date `(year, month, day)` of day `days` counted
/// from 1970-01-01 (day 0), by the civil-from-days conversion: days are
/// shifted to an epoch of 0000-03-01, split into 400-year eras of 146097
/// days, then into a year of the era (March-based, so the leap day ends the
/// year), a day of that year, and a month of 153-day five-month cycles.
pub open spec fn civil_from_days(days: int) -> (int, int, int) {
    let z = days + 719_468;
    let era = z / 146_097;
    let doe = z - era * 146_097;
    let yoe = (doe - doe / 1460 + doe / 36_524 - doe / 146_096) / 365;
    let y = yoe + era * 400;
    let doy = doe - (365 * yoe + yoe / 4 - yoe / 100);
    let mp = tdiv(5 * doy + 2, 153);
    let d = doy - tdiv(153 * mp + 2, 5) + 1;
    let m = if mp < 10 { mp + 3 } else { mp - 9 };
    (if m <= 2 { y + 1 } else { y }, m, d)
}

/// `digits` zero-padded on the left to at least `w` characters.
pub open spec fn zero_pad(digits: Seq<char>, w: int) -> Seq<char> {
    if digits.len() >= w {
        digits
    } else {
        Seq::new((w - digits.len()) as nat, |i: int| '0') + digits
    }
}

/// `n` printed with at least `w` characters, zero-padded after the sign (as
/// `format!("{n:0w$}")` does).
pub open spec fn padded(n: int, w: int) -> Seq<char> {
    if n >= 0 {
        zero_pad(crate::text::dec(n as nat), w)
    } else {
        seq!['-'] + zero_pad(crate::text::dec((-n) as nat), w - 1)
    }
}

/// Unix seconds `secs` as `YYYY-MM-DD` (proleptic Gregorian, UTC): the
/// [`civil_from_days`] date of the day holding `secs`.
pub open spec fn ymd_spec(secs: int) -> Seq<char> {
    let (y, m, d) = civil_from_days(secs / 86_400);
    padded(y, 4) + seq!['-'] + padded(m, 2) + seq!['-'] + padded(d, 2)
}

/// Append `n` to `s`, zero-padded to at least `w` characters (see [`padded`]).
fn push_padded(s: &mut String, n: i64, w: usize)
    requires
        1 <= w <= 4,
        n > i64::MIN,
    ensures
        final(s)@ == old(s)@ + padded(n as int, w as int),
{
    let mut digits = String::new();
    let mag: u64 = if n >= 0 { n as u64 } else { (-n) as u64 };
    crate::text::push_decimal(&mut digits, mag);
    let width: usize = if n >= 0 { w } else { w - 1 };
    if n < 0 {
        crate::text::push_char(s, '-');
    }
    let len = digits.as_str().unicode_len();
    let target = if len < width { width } else { len };
    let ghost before = s@;
    let mut k: usize = len;
    assert(s@ =~= before + Seq::new((k - len) as nat, |i: int| '0'));
    while k < target
        invariant
            len <= k <= target,
            len == digits@.len(),
            s@ == before + Seq::new((k - len) as nat, |i: int| '0'),
        decreases target - k,
    {
        crate::text::push_char(s, '0');
        k = k + 1;
        assert(s@ =~= before + Seq::new((k - len) as nat, |i: int| '0'));
    }
    crate::text::push_str(s, digits.as_str());
    assert(s@ =~= old(s)@ + padded(n as int, w as int));
}

/// The day index (from 1970-01-01) of unix second `secs`.
fn day_of(secs: i64) -> (r: i64)
    ensures
        r == secs / 86_400,
        -200_000_000_000_000 <= r <= 200_000_000_000_000,
{
    let q = secs / 86_400;
    if secs % 86_400 < 0 { q - 1 } else { q }
}

/// The [`civil_from_days`] date of `days`.
fn civil(days: i64) -> (r: (i64, i64, i64))
    requires
        -200_000_000_000_000 <= days <= 200_000_000_000_000,
    ensures
        (r.0 as int, r.1 as int, r.2 as int) == civil_from_days(days as int),
        r.0 > i64::MIN,
        r.1 > i64::MIN,
        r.2 > i64::MIN,
{
    let z: i64 = days + 719_468;
    let zq = z / 146_097;
    let era: i64 = if z % 146_097 < 0 { zq - 1 } else { zq };
    assert(era == z / 146_097);
    assert(-2_000_000_000_000 <= era <= 2_000_000_000_000) by (nonlinear_arith)
        requires
            era == z / 146_097,
            -300_000_000_000_000 <= z <= 300_000_000_000_000,
    ;
    assert(0 <= z - era * 146_097 < 146_097) by (nonlinear_arith)
        requires
            era == z / 146_097,
    ;
    let doe: i64 = z - era * 146_097;
    let yoe: i64 = (doe - doe / 1460 + doe / 36_524 - doe / 146_096) / 365;
    assert(0 <= yoe <= 401) by (nonlinear_arith)
        requires
            0 <= doe < 146_097,
            yoe == (doe - doe / 1460 + doe / 36_524 - doe / 146_096) / 365,
    ;
    let y: i64 = yoe + era * 400;
    let doy: i64 = doe - (365 * yoe + yoe / 4 - yoe / 100);
    let mp: i64 = (5 * doy + 2) / 153;
    let d: i64 = doy - (153 * mp + 2) / 5 + 1;
    let m: i64 = if mp < 10 { mp + 3 } else { mp - 9 };
    let year: i64 = if m <= 2 { y + 1 } else { y };
    (year, m, d)
}

/// Format unix seconds as `YYYY-MM-DD` (proleptic Gregorian, UTC; see
/// [`ymd_spec`]).
pub fn ymd(secs: i64) -> (r: String)
    ensures
        r@ == ymd_spec(secs as int),
{
    let days = day_of(secs);
    let (year, m, d) = civil(days);
    let mut out = String::new();
    push_padded(&mut out, year, 4);
    crate::text::push_char(&mut out, '-');
    push_padded(&mut out, m, 2);
    crate::text::push_char(&mut out, '-');
    push_padded(&mut out, d, 2);
    out
}


/// Whether `y` is a leap year of the proleptic Gregorian calendar.
pub open spec fn is_leap(y: int) -> bool {
    (y % 4 == 0 && y % 100 != 0) || y % 400 == 0
}

/// The number of days of month `m` (1–12) of year `y`.
pub open spec fn month_len(y: int, m: int) -> int {
    if m == 2 {
        if is_leap(y) { 29 } else { 28 }
    } else if m == 4 || m == 6 || m == 9 || m == 11 {
        30
    } else {
        31
    }
}

/// How many leap years precede year `y` (counted from year 1; a
/// difference of two of these counts the leap years between).
pub open spec fn leaps_before(y: int) -> int {
    (y - 1) / 4 - (y - 1) / 100 + (y - 1) / 400
}

/// The days of year `y` before month `m` (1–12) begins.
pub open spec fn days_before_month(y: int, m: int) -> int {
    let base: int = if m == 1 { 0 } else if m == 2 { 31 } else if m == 3 { 59 } else if m == 4 { 90 }
        else if m == 5 { 120 } else if m == 6 { 151 } else if m == 7 { 181 } else if m == 8 { 212 }
        else if m == 9 { 243 } else if m == 10 { 273 } else if m == 11 { 304 } else { 334 };
    base + (if m > 2 && is_leap(y) { 1int } else { 0int })
}

/// The day number (0 = 1970-01-01) of the date `y`-`m`-`d`, by counting:
/// whole years since 1970 with their leap days, then the months before `m`,
/// then the days before `d`.
pub open spec fn days_from_civil(y: int, m: int, d: int) -> int {
    365 * (y - 1970) + leaps_before(y) - leaps_before(1970) + days_before_month(y, m) + d - 1
}

/// [`civil_from_days`] within the 400-year era starting 0000-03-01: the date
/// of day `doe` of that era.
pub open spec fn civil_of_era_day(doe: int) -> (int, int, int) {
    let yoe = (doe - doe / 1460 + doe / 36_524 - doe / 146_096) / 365;
    let doy = doe - (365 * yoe + yoe / 4 - yoe / 100);
    let mp = (5 * doy + 2) / 153;
    let d = doy - (153 * mp + 2) / 5 + 1;
    let m = if mp < 10 { mp + 3 } else { mp - 9 };
    (if m <= 2 { yoe + 1 } else { yoe }, m, d)
}

/// The days of a March-based year before its month `mp` (0 = March).
pub open spec fn march_before(mp: int) -> int {
    (153 * mp + 2) / 5
}

/// The day of a March-based year and the year of the era stay in range.
proof fn lemma_doy(doe: int)
    requires
        0 <= doe < 146_097,
    ensures
        ({
            let yoe = (doe - doe / 1460 + doe / 36_524 - doe / 146_096) / 365;
            let doy = doe - (365 * yoe + yoe / 4 - yoe / 100);
            &&& 0 <= doy <= 365
            &&& 0 <= yoe <= 399
        }),
{
}

/// The 366th day of a March-based year is the leap day of a leap year.
proof fn lemma_feb29(doe: int)
    requires
        0 <= doe < 146_097,
        ({
            let yoe = (doe - doe / 1460 + doe / 36_524 - doe / 146_096) / 365;
            doe - (365 * yoe + yoe / 4 - yoe / 100) == 365
        }),
    ensures
        ({
            let yoe = (doe - doe / 1460 + doe / 36_524 - doe / 146_096) / 365;
            is_leap(yoe + 1)
        }),
{
}

/// A day of a March-based year falls in one of its twelve months.
proof fn lemma_month(doy: int)
    requires
        0 <= doy <= 365,
    ensures
        ({
            let mp = (5 * doy + 2) / 153;
            let d = doy - march_before(mp) + 1;
            &&& 0 <= mp <= 11
            &&& 1 <= d
            &&& mp < 11 ==> doy < march_before(mp + 1)
        }),
{
}

/// Passing a year adds one to the leap-year count exactly when it is a leap year.
proof fn lemma_leaps_step(y: int)
    requires
        0 <= y <= 400,
    ensures
        leaps_before(y + 1) == leaps_before(y) + (if is_leap(y) { 1int } else { 0int }),
{
}

/// The era-day date is valid and counts back to its day.
proof fn lemma_civil_of_era_day(doe: int)
    requires
        0 <= doe < 146_097,
    ensures
        ({
            let (y, m, d) = civil_of_era_day(doe);
            &&& 1 <= m <= 12
            &&& 1 <= d <= month_len(y, m)
            &&& days_from_civil(y, m, d) == doe - 719_468
        }),
{
    let yoe = (doe - doe / 1460 + doe / 36_524 - doe / 146_096) / 365;
    let doy = doe - (365 * yoe + yoe / 4 - yoe / 100);
    lemma_doy(doe);
    lemma_month(doy);
    let mp = (5 * doy + 2) / 153;
    let d = doy - march_before(mp) + 1;
    if doy == 365 {
        lemma_feb29(doe);
    }
    lemma_leaps_step(yoe);
    assert(leaps_before(yoe + 1) == yoe / 4 - yoe / 100);
    assert(leaps_before(1970) == 477);
    if mp < 10 {
        assert(d <= month_len(yoe, mp + 3)) by {
            assert(march_before(mp + 1) - march_before(mp) == month_len(yoe, mp + 3));
        }
        assert(days_before_month(yoe, mp + 3) == 59 + (if is_leap(yoe) { 1int } else { 0int }) + march_before(mp));
    } else if mp == 10 {
        assert(march_before(10) == 306);
        assert(march_before(11) == 337);
    } else {
        assert(march_before(11) == 337);
    }
}

/// Four hundred years later is the same calendar, 146097 days on.
proof fn lemma_shift(y: int, e: int, m: int, d: int)
    ensures
        is_leap(y + 400 * e) == is_leap(y),
        leaps_before(y + 400 * e) == leaps_before(y) + 97 * e,
        days_from_civil(y + 400 * e, m, d) == days_from_civil(y, m, d) + 146_097 * e,
{
    vstd::arithmetic::div_mod::lemma_hoist_over_denominator(y - 1, 100 * e, 4);
    vstd::arithmetic::div_mod::lemma_hoist_over_denominator(y - 1, 4 * e, 100);
    vstd::arithmetic::div_mod::lemma_hoist_over_denominator(y - 1, e, 400);
    vstd::arithmetic::div_mod::lemma_mod_multiples_vanish(100 * e, y, 4);
    vstd::arithmetic::div_mod::lemma_mod_multiples_vanish(4 * e, y, 100);
    vstd::arithmetic::div_mod::lemma_mod_multiples_vanish(e, y, 400);
    assert(y - 1 + (100 * e) * 4 == y - 1 + 400 * e) by (nonlinear_arith);
    assert(y - 1 + (4 * e) * 100 == y - 1 + 400 * e) by (nonlinear_arith);
    assert(4 * (100 * e) + y == y + 400 * e) by (nonlinear_arith);
    assert(100 * (4 * e) + y == y + 400 * e) by (nonlinear_arith);
    assert(days_before_month(y + 400 * e, m) == days_before_month(y, m));
    assert(365 * (y + 400 * e - 1970) == 365 * (y - 1970) + 146_000 * e) by (nonlinear_arith);
}

/// The date `ymd` prints is the calendar date of the day: for every day
/// number, the [`civil_from_days`] date is a valid proleptic Gregorian date
/// (month 1–12, day within the month's length, leap years included) and
/// counting forward from 1970-01-01 to it gives back the day number.
pub proof fn civil_date_law(days: int)
    ensures
        ({
            let (y, m, d) = civil_from_days(days);
            &&& 1 <= m <= 12
            &&& 1 <= d <= month_len(y, m)
            &&& days_from_civil(y, m, d) == days
        }),
{
    let z = days + 719_468;
    let era = z / 146_097;
    let doe = z - era * 146_097;
    assert(0 <= doe < 146_097) by (nonlinear_arith)
        requires
            era == z / 146_097,
            doe == z - era * 146_097,
    ;
    lemma_doy(doe);
    let yoe = (doe - doe / 1460 + doe / 36_524 - doe / 146_096) / 365;
    let doy = doe - (365 * yoe + yoe / 4 - yoe / 100);
    lemma_month(doy);
    lemma_civil_of_era_day(doe);
    let (y0, m, d) = civil_of_era_day(doe);
    assert(civil_from_days(days) == (y0 + era * 400, m, d));
    lemma_shift(y0, era, m, d);
    assert(era * 400 == 400 * era) by (nonlinear_arith);
}

} // verus!
