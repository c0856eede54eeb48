//! Theme selection: a theme is an index into the registry of bundled themes
//! (index 0 the default dark theme, 1 the default light one). The registry's
//! names and each theme's brightness come from the bundled theme set; this
//! module parses a name against them and partitions the registry into the
//! picker's dark and light tabs.

use vstd::prelude::*;
use crate::text::{chars_of, lowercase, str_eq, string_of_range, to_lowercase};

verus! {

/// Which bundled theme to use: an index into the registry.
#[derive(Debug, Clone, Copy, PartialEq, Eq, Default, Structural)]
pub struct ThemeName(pub usize);

/// Whether `c` has Unicode's White_Space property (the characters std's
/// `str::trim` strips).
pub open spec fn is_white(c: char) -> bool {
    let u = c as u32;
    ||| 0x9 <= u <= 0xD
    ||| u == 0x20 || u == 0x85 || u == 0xA0 || u == 0x1680
    ||| 0x2000 <= u <= 0x200A
    ||| u == 0x2028 || u == 0x2029 || u == 0x202F || u == 0x205F || u == 0x3000
}

/// The first position from `i` on that is not white space (or the end).
pub open spec fn trim_start_at(s: Seq<char>, i: int) -> int
    decreases s.len() - i,
{
    if 0 <= i < s.len() && is_white(s[i]) {
        trim_start_at(s, i + 1)
    } else {
        i
    }
}

/// The end of `s[lo..j)` once its trailing white space is dropped.
pub open spec fn trim_end_at(s: Seq<char>, lo: int, j: int) -> int
    decreases j - lo,
{
    if j > lo && is_white(s[j - 1]) {
        trim_end_at(s, lo, j - 1)
    } else {
        j
    }
}

/// `s` with its leading and trailing white space removed, as std's
/// `str::trim` returns it.
pub open spec fn trimmed(s: Seq<char>) -> Seq<char> {
    let a = trim_start_at(s, 0);
    s.subrange(a, trim_end_at(s, a, s.len() as int))
}

fn is_white_char(c: char) -> (r: bool)
    ensures
        r == is_white(c),
{
    let u = c as u32;
    (0x9 <= u && u <= 0xD) || u == 0x20 || u == 0x85 || u == 0xA0 || u == 0x1680 || (0x2000 <= u && u <= 0x200A)
        || u == 0x2028 || u == 0x2029 || u == 0x202F || u == 0x205F || u == 0x3000
}

/// `s` without leading and trailing white space (see [`trimmed`]).
fn trim(s: &str) -> (r: String)
    ensures
        r@ == trimmed(s@),
{
    let cs = chars_of(s);
    let n = cs.len();
    let mut a: usize = 0;
    while a < n && is_white_char(cs[a])
        invariant
            a <= n == cs@.len(),
            trim_start_at(cs@, 0) == trim_start_at(cs@, a as int),
        decreases n - a,
    {
        a = a + 1;
    }
    let mut b: usize = n;
    while b > a && is_white_char(cs[b - 1])
        invariant
            a <= b <= n == cs@.len(),
            trim_start_at(cs@, 0) == a,
            trim_end_at(cs@, a as int, n as int) == trim_end_at(cs@, a as int, b as int),
        decreases b,
    {
        b = b - 1;
    }
    proof {
        assert(cs@ == s@);
    }
    string_of_range(cs.as_slice(), a, b)
}

/// The first registry index whose name, lowercased, is `lower`.
pub open spec fn name_index(names: Seq<Seq<char>>, lower: Seq<char>, k: int) -> Option<int>
    decreases names.len() - k,
{
    if k < 0 || k >= names.len() {
        None
    } else if lowercase(names[k]) == lower {
        Some(k)
    } else {
        name_index(names, lower, k + 1)
    }
}

/// The theme a CLI/config string names among the registry `names`: legacy
/// `dark`/`light`, else the first theme whose name matches (both trimmed
/// string and names compared lowercased), else the default.
pub open spec fn theme_index_spec(s: Seq<char>, names: Seq<Seq<char>>) -> usize {
    let lower = lowercase(trimmed(s));
    if lower == "dark"@ {
        0
    } else if lower == "light"@ {
        1
    } else {
        match name_index(names, lower, 0) {
            Some(k) => k as usize,
            None => 0,
        }
    }
}

/// The views of a list of names.
pub open spec fn names_view(v: Seq<String>) -> Seq<Seq<char>> {
    v.map_values(|s: String| s@)
}

impl ThemeName {
    /// The default dark theme (legacy `"dark"`).
    pub fn dark() -> (r: ThemeName)
        ensures
            r.0 == 0,
    {
        ThemeName(0)
    }

    /// The default light theme (legacy `"light"`).
    pub fn light() -> (r: ThemeName)
        ensures
            r.0 == 1,
    {
        ThemeName(1)
    }

    /// Parse a CLI/config theme string against the registry's theme `names`
    /// (see [`theme_index_spec`]); unknown names fall back to the default.
    pub fn parse_among(s: &str, names: &[String]) -> (r: ThemeName)
        ensures
            r.0 == theme_index_spec(s@, names_view(names@)),
    {
        let t = trim(s);
        let lower = to_lowercase(t.as_str());
        proof {
            reveal_strlit("dark");
            reveal_strlit("light");
        }
        if str_eq(lower.as_str(), "dark") {
            return ThemeName(0);
        }
        if str_eq(lower.as_str(), "light") {
            return ThemeName(1);
        }
        let ghost nv = names_view(names@);
        let mut k: usize = 0;
        while k < names.len()
            invariant
                k <= names@.len(),
                nv == names_view(names@),
                lower@ == lowercase(trimmed(s@)),
                lower@ != "dark"@,
                lower@ != "light"@,
                name_index(nv, lower@, 0) == name_index(nv, lower@, k as int),
            decreases names@.len() - k,
        {
            assert(nv[k as int] == names@[k as int]@);
            let n = to_lowercase(names[k].as_str());
            if str_eq(n.as_str(), lower.as_str()) {
                return ThemeName(k);
            }
            k = k + 1;
        }
        ThemeName(0)
    }

    /// This theme's position within its brightness `tab` (for placing the
    /// picker cursor), or 0 when it is not there.
    pub fn position_in_tab(self, tab: &[ThemeName]) -> (r: usize)
        ensures
            (exists|j: int| 0 <= j < tab@.len() && tab@[j] == self) ==> (r < tab@.len() && tab@[r as int] == self
                && forall|j: int| 0 <= j < r ==> tab@[j] != self),
            (forall|j: int| 0 <= j < tab@.len() ==> tab@[j] != self) ==> r == 0,
    {
        let mut k: usize = 0;
        while k < tab.len()
            invariant
                k <= tab@.len(),
                forall|j: int| 0 <= j < k ==> tab@[j] != self,
            decreases tab@.len() - k,
        {
            if tab[k].0 == self.0 {
                return k;
            }
            k = k + 1;
        }
        0
    }
}

/// The themes whose darkness flag is `dark`, in registry order.
pub open spec fn tab_of(flags: Seq<bool>, dark: bool, n: int) -> Seq<ThemeName>
    decreases n,
{
    if n <= 0 || n > flags.len() {
        Seq::empty()
    } else if flags[n - 1] == dark {
        tab_of(flags, dark, n - 1).push(ThemeName((n - 1) as usize))
    } else {
        tab_of(flags, dark, n - 1)
    }
}

/// The picker tab of a brightness: the registry's themes (by `is_dark`
/// flag per theme) whose flag is `dark`, in registry order.
pub fn themes_by_brightness(is_dark: &[bool], dark: bool) -> (r: Vec<ThemeName>)
    ensures
        r@ == tab_of(is_dark@, dark, is_dark@.len() as int),
{
    let mut out: Vec<ThemeName> = Vec::new();
    let mut k: usize = 0;
    while k < is_dark.len()
        invariant
            k <= is_dark@.len(),
            out@ == tab_of(is_dark@, dark, k as int),
        decreases is_dark@.len() - k,
    {
        if is_dark[k] == dark {
            out.push(ThemeName(k));
        }
        k = k + 1;
    }
    out
}

/// The two tabs partition the registry: their sizes add up to the registry's.
pub proof fn tabs_partition_law(flags: Seq<bool>, n: int)
    requires
        0 <= n <= flags.len(),
    ensures
        tab_of(flags, true, n).len() + tab_of(flags, false, n).len() == n,
    decreases n,
{
    if n > 0 {
        tabs_partition_law(flags, n - 1);
    }
}

} // verus!
