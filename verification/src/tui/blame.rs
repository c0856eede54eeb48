//! Pure presentation helpers for the blame gutter: the compact relative-age
//! token and the fixed-width `name + age` gutter layout.

use vstd::prelude::*;
use crate::text::{chars_of, dec, push_char, push_decimal};
use unicode_width::UnicodeWidthChar;

verus! {

/// Total width of the attribution gutter, in columns (before the ` │ ` rule).
pub const GUTTER_W: usize = 12;

pub const HOUR: i64 = 3_600;
pub const DAY: i64 = 86_400;
/// Average Gregorian month in seconds, so `YEAR == 12 * MONTH` exactly.
pub const MONTH: i64 = 2_629_746;
pub const YEAR: i64 = 31_556_952;

/// `a - b` clamped into the `i64` range.
pub open spec fn sat_diff(a: i64, b: i64) -> int {
    let d = a - b;
    if d > i64::MAX {
        i64::MAX as int
    } else if d < i64::MIN {
        i64::MIN as int
    } else {
        d
    }
}

/// `d / unit` with one truncated decimal while the integer part is a single
/// digit, as a bare integer from 10 on; `suffix` appended. The `* 10` saturates
/// at `i64::MAX`.
pub open spec fn unit_spec(d: int, unit: int, suffix: char) -> Seq<char> {
    let m = d * 10;
    let tenths = (if m > i64::MAX { i64::MAX as int } else { m }) / unit;
    let ip = tenths / 10;
    if ip >= 10 {
        dec(ip as nat) + seq![suffix]
    } else {
        dec(ip as nat) + seq!['.'] + dec((tenths % 10) as nat) + seq![suffix]
    }
}

/// The compact relative age of `then` as of `now`: whole hours below a day,
/// whole days below a month, then months and years via [`unit_spec`]. Future
/// timestamps count as 0 seconds.
pub open spec fn age_spec(now: i64, then: i64) -> Seq<char> {
    let d0 = sat_diff(now, then);
    let d = if d0 < 0 { 0 } else { d0 };
    if d < DAY {
        dec((d / HOUR as int) as nat) + seq!['h']
    } else if d < MONTH {
        dec((d / DAY as int) as nat) + seq!['d']
    } else if d < YEAR {
        unit_spec(d, MONTH as int, 'm')
    } else {
        unit_spec(d, YEAR as int, 'y')
    }
}

/// Format `d / unit` per [`unit_spec`].
fn decimal_unit(d: i64, unit: i64, suffix: char) -> (r: String)
    requires
        d >= 0,
        unit > 0,
    ensures
        r@ == unit_spec(d as int, unit as int, suffix),
{
    let m: i64 = if d > i64::MAX / 10 { i64::MAX } else { d * 10 };
    let tenths = m / unit;
    let int_part = tenths / 10;
    let mut s = String::new();
    push_decimal(&mut s, int_part as u64);
    if int_part >= 10 {
        push_char(&mut s, suffix);
    } else {
        push_char(&mut s, '.');
        push_decimal(&mut s, (tenths % 10) as u64);
        push_char(&mut s, suffix);
    }
    proof {
        assert(d * 10 > i64::MAX <==> d > i64::MAX / 10);
        assert(s@ =~= unit_spec(d as int, unit as int, suffix));
    }
    s
}

/// Compact relative age of `then_secs` as of `now_secs` (see [`age_spec`]):
/// hours → days → months → years; months and years carry one decimal while
/// the integer part is a single digit. Future timestamps clamp to `0h`.
pub fn relative_age(now_secs: i64, then_secs: i64) -> (r: String)
    ensures
        r@ == age_spec(now_secs, then_secs),
{
    let d0: i64 = if then_secs < 0 && now_secs > i64::MAX + then_secs {
        i64::MAX
    } else if then_secs > 0 && now_secs < i64::MIN + then_secs {
        i64::MIN
    } else {
        now_secs - then_secs
    };
    let d: i64 = if d0 < 0 { 0 } else { d0 };
    if d < DAY {
        let mut s = String::new();
        push_decimal(&mut s, (d / HOUR) as u64);
        push_char(&mut s, 'h');
        assert(s@ =~= age_spec(now_secs, then_secs));
        s
    } else if d < MONTH {
        let mut s = String::new();
        push_decimal(&mut s, (d / DAY) as u64);
        push_char(&mut s, 'd');
        assert(s@ =~= age_spec(now_secs, then_secs));
        s
    } else if d < YEAR {
        decimal_unit(d, MONTH, 'm')
    } else {
        decimal_unit(d, YEAR, 'y')
    }
}

/// The terminal display width unicode-width gives a character (`None` for
/// control characters).
pub uninterp spec fn char_width(c: char) -> Option<usize>;

/// unicode-width: `UnicodeWidthChar::width`. Claimed: the result is the named
/// [`char_width`]; printable ASCII is one column, the C0/C1 control ranges have
/// no width, and every other character's width comes from a `u8` table entry.
#[verifier::external_body]
fn display_width(c: char) -> (r: Option<usize>)
    ensures
        r == char_width(c),
        (' ' <= c && c < '\u{7f}') ==> r == Some(1usize),
        (c < ' ' || ('\u{7f}' <= c && c < '\u{a0}')) ==> r is None,
        r matches Some(w) ==> w <= 255,
{
    c.width()
}

/// The columns a character occupies in the gutter (control characters: 0).
pub open spec fn cell_w(c: char) -> int {
    match char_width(c) {
        Some(w) => w as int,
        None => 0,
    }
}

/// Display width of `s`: the sum of its characters' [`cell_w`].
pub open spec fn cells(s: Seq<char>) -> int
    decreases s.len(),
{
    if s.len() == 0 {
        0
    } else {
        cells(s.drop_last()) + cell_w(s.last())
    }
}

/// How many leading characters of `name` fit in `room` columns, taking
/// characters in order and stopping at the first that does not fit.
pub open spec fn fit_len(name: Seq<char>, room: int) -> nat
    decreases name.len(),
{
    if name.len() == 0 || cell_w(name[0]) > room {
        0
    } else {
        1 + fit_len(name.drop_first(), room - cell_w(name[0]))
    }
}

/// The gutter for one run-start line: `width` columns holding the (truncated)
/// author `name` flush left and the `age` (cut to `width` chars) flush right,
/// padded with spaces in between; the name gets `width - 1 - age chars`
/// columns so at least one space separates them whenever it fits.
pub open spec fn gutter_spec(name: Seq<char>, age: Seq<char>, width: nat) -> Seq<char> {
    let a = if age.len() <= width { age } else { age.take(width as int) };
    let room = if width >= 1 + a.len() { width - 1 - a.len() } else { 0 };
    let nt = name.take(fit_len(name, room) as int);
    let used = cells(nt) + a.len();
    let gap = if width >= used { width - used } else { 0 };
    nt + Seq::new(gap as nat, |i: int| ' ') + a
}

proof fn lemma_cells_nonneg(s: Seq<char>)
    ensures
        cells(s) >= 0,
    decreases s.len(),
{
    if s.len() > 0 {
        lemma_cells_nonneg(s.drop_last());
    }
}

proof fn lemma_fit_len(name: Seq<char>, room: int, k: int, used: int)
    requires
        0 <= k <= name.len(),
        used == cells(name.take(k)),
        used <= room,
        k == name.len() || used + cell_w(name[k]) > room,
        forall|t: int| 0 <= t < k ==> cells(name.take(t)) + cell_w(#[trigger] name[t]) <= room,
    ensures
        fit_len(name, room) == k,
    decreases k,
{
    if k > 0 {
        let tail = name.drop_first();
        assert(cells(name.take(1)) == cell_w(name[0])) by {
            assert(name.take(1).drop_last() =~= Seq::<char>::empty());
            assert(cells(Seq::<char>::empty()) == 0);
            assert(name.take(1).last() == name[0]);
        }
        assert(cells(name.take(0)) == 0) by {
            assert(name.take(0) =~= Seq::<char>::empty());
        }
        assert forall|t: int| 0 <= t <= k - 1 implies #[trigger] cells(tail.take(t)) == cells(name.take(t + 1)) - cell_w(name[0]) by {
            lemma_cells_shift(name, t);
        }
        assert forall|t: int| 0 <= t < k - 1 implies cells(tail.take(t)) + cell_w(#[trigger] tail[t]) <= room - cell_w(name[0]) by {
            assert(tail[t] == name[t + 1]);
            assert(cells(tail.take(t)) == cells(name.take(t + 1)) - cell_w(name[0]));
        }
        if k - 1 < tail.len() {
            assert(tail[k - 1] == name[k]);
        }
        assert(cells(tail.take(k - 1)) == cells(name.take(k)) - cell_w(name[0]));
        lemma_fit_len(tail, room - cell_w(name[0]), k - 1, used - cell_w(name[0]));
    } else {
        assert(name.take(0) =~= Seq::<char>::empty());
    }
}

proof fn lemma_cells_shift(name: Seq<char>, t: int)
    requires
        0 <= t,
        t + 1 <= name.len(),
    ensures
        cells(name.drop_first().take(t)) == cells(name.take(t + 1)) - cell_w(name[0]),
    decreases t,
{
    if t == 0 {
        assert(name.drop_first().take(0) =~= Seq::<char>::empty());
        assert(name.take(1).drop_last() =~= Seq::<char>::empty());
    } else {
        lemma_cells_shift(name, t - 1);
        assert(name.drop_first().take(t).drop_last() =~= name.drop_first().take(t - 1));
        assert(name.take(t + 1).drop_last() =~= name.take(t));
    }
}

/// Lay out a run-start line's gutter (see [`gutter_spec`]); widths are
/// measured in terminal display cells, not chars.
pub fn gutter_token(name: &str, age: &str, width: usize) -> (r: String)
    requires
        width < usize::MAX,
    ensures
        r@ == gutter_spec(name@, age@, width as nat),
{
    let age_cs = chars_of(age);
    let a_len = if age_cs.len() <= width { age_cs.len() } else { width };
    let age_w = a_len;
    let name_room = width.saturating_sub(1 + age_w);
    let name_cs = chars_of(name);
    let mut k: usize = 0;
    let mut name_w: usize = 0;
    proof {
        assert(name_cs@.take(0) =~= Seq::<char>::empty());
    }
    while k < name_cs.len()
        invariant
            k <= name_cs@.len(),
            name_cs@ == name@,
            name_w as int == cells(name@.take(k as int)),
            name_w <= name_room,
            forall|t: int| 0 <= t < k ==> cells(name@.take(t)) + cell_w(#[trigger] name@[t]) <= name_room,
        ensures
            k == name@.len() || cells(name@.take(k as int)) + cell_w(name@[k as int]) > name_room,
        decreases name_cs@.len() - k,
    {
        let w = match display_width(name_cs[k]) {
            Some(w) => w,
            None => 0,
        };
        assert(w as int == cell_w(name@[k as int]));
        if w > name_room - name_w {
            break;
        }
        proof {
            assert(name@.take(k + 1).drop_last() =~= name@.take(k as int));
        }
        name_w = name_w + w;
        k = k + 1;
    }
    proof {
        lemma_fit_len(name@, name_room as int, k as int, name_w as int);
    }
    let gap = width.saturating_sub(name_w + age_w);
    let mut s = String::new();
    let mut i: usize = 0;
    while i < k
        invariant
            i <= k <= name_cs@.len(),
            name_cs@ == name@,
            s@ == name@.take(i as int),
        decreases k - i,
    {
        push_char(&mut s, name_cs[i]);
        i = i + 1;
        assert(s@ =~= name@.take(i as int));
    }
    let ghost pre = s@;
    let mut g: usize = 0;
    while g < gap
        invariant
            g <= gap,
            s@ == pre + Seq::new(g as nat, |j: int| ' '),
        decreases gap - g,
    {
        push_char(&mut s, ' ');
        g = g + 1;
        assert(s@ =~= pre + Seq::new(g as nat, |j: int| ' '));
    }
    let ghost mid = s@;
    let mut j: usize = 0;
    while j < a_len
        invariant
            j <= a_len <= age_cs@.len(),
            age_cs@ == age@,
            s@ == mid + age@.take(j as int),
        decreases a_len - j,
    {
        push_char(&mut s, age_cs[j]);
        j = j + 1;
        assert(s@ =~= mid + age@.take(j as int));
    }
    proof {
        let a = if age@.len() <= width { age@ } else { age@.take(width as int) };
        assert(age@.take(a_len as int) =~= a);
        assert(s@ =~= gutter_spec(name@, age@, width as nat));
    }
    s
}

/// The blank gutter shown on a collapsed continuation line: `width` spaces.
pub fn blank_gutter(width: usize) -> (r: String)
    ensures
        r@ == Seq::new(width as nat, |i: int| ' '),
{
    let mut s = String::new();
    let mut g: usize = 0;
    while g < width
        invariant
            g <= width,
            s@ == Seq::new(g as nat, |j: int| ' '),
        decreases width - g,
    {
        push_char(&mut s, ' ');
        g = g + 1;
        assert(s@ =~= Seq::new(g as nat, |j: int| ' '));
    }
    s
}

/// Display width adds up over concatenation.
proof fn lemma_cells_concat(a: Seq<char>, b: Seq<char>)
    ensures
        cells(a + b) == cells(a) + cells(b),
    decreases b.len(),
{
    if b.len() > 0 {
        lemma_cells_concat(a, b.drop_last());
        assert((a + b).drop_last() =~= a + b.drop_last());
    } else {
        assert(a + b =~= a);
    }
}

/// `n` spaces take `n` columns when a space takes one.
proof fn lemma_cells_spaces(n: nat)
    requires
        cell_w(' ') == 1,
    ensures
        cells(Seq::new(n, |i: int| ' ')) == n,
    decreases n,
{
    if n > 0 {
        lemma_cells_spaces((n - 1) as nat);
        assert(Seq::new(n, |i: int| ' ').drop_last() =~= Seq::new((n - 1) as nat, |i: int| ' '));
    } else {
        assert(Seq::new(n, |i: int| ' ') =~= Seq::<char>::empty());
    }
}

/// Characters of one column each take as many columns as there are of them.
proof fn lemma_cells_unit(s: Seq<char>)
    requires
        forall|i: int| 0 <= i < s.len() ==> cell_w(#[trigger] s[i]) == 1,
    ensures
        cells(s) == s.len(),
    decreases s.len(),
{
    if s.len() > 0 {
        lemma_cells_unit(s.drop_last());
    }
}

/// The characters that fit in `room` take at most `room` columns.
proof fn lemma_fit_cells(name: Seq<char>, room: int)
    requires
        room >= 0,
    ensures
        fit_len(name, room) <= name.len(),
        cells(name.take(fit_len(name, room) as int)) <= room,
    decreases name.len(),
{
    if name.len() == 0 || cell_w(name[0]) > room {
        assert(name.take(0) =~= Seq::<char>::empty());
    } else {
        let tail = name.drop_first();
        let w = cell_w(name[0]);
        assert(w >= 0);
        lemma_fit_cells(tail, room - w);
        let k = fit_len(tail, room - w);
        lemma_cells_shift(name, k as int);
    }
}

/// The gutter is exactly `width` columns whenever a space and every
/// character of the age take one column each (ages are ASCII): a long name
/// is cut to its room and an oversized age to the width.
pub proof fn gutter_width_law(name: Seq<char>, age: Seq<char>, width: nat)
    requires
        cell_w(' ') == 1,
        forall|i: int| 0 <= i < age.len() ==> cell_w(#[trigger] age[i]) == 1,
    ensures
        cells(gutter_spec(name, age, width)) == width,
{
    let a = if age.len() <= width { age } else { age.take(width as int) };
    let room = if width >= 1 + a.len() { width - 1 - a.len() } else { 0 };
    let nt = name.take(fit_len(name, room) as int);
    lemma_fit_cells(name, room);
    lemma_cells_nonneg(nt);
    assert forall|i: int| 0 <= i < a.len() implies cell_w(#[trigger] a[i]) == 1 by {
        assert(a[i] == age[i]);
    }
    lemma_cells_unit(a);
    let used = cells(nt) + a.len();
    let gap: nat = if width >= used { (width - used) as nat } else { 0 };
    lemma_cells_spaces(gap);
    let sp = Seq::new(gap, |i: int| ' ');
    lemma_cells_concat(nt, sp);
    lemma_cells_concat(nt + sp, a);
}

} // verus!
