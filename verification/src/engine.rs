//! The highlighting engine: the bundled tree-sitter grammars first, syntect
//! over two-face's syntaxes as the breadth fallback, plain text otherwise;
//! and the theme colors the renderer resolves captures and chrome by.

use vstd::prelude::*;
use crate::diff::{line_token_bounds, line_tokens};
use crate::highlight::{
    capture_scope_spec, first_dot_from, plain, plain_spec, ranges_view, scope_for_capture, span_lines_view,
    syntect_fallback, syntect_spans, syntect_spans_spec, trim_eol_chars, ts_key, ts_key_spec, Paint, Rgb, Span,
    SpanV,
};
use crate::text::{chars_of, string_of_range};
use crate::treesitter::{capture_names, capture_names_spec, opt_lines_view, ts_highlight, ts_highlight_spec};

verus! {

/// syntect's syntax set.
#[verifier::external_type_specification]
#[verifier::external_body]
pub struct ExSyntaxSet(syntect::parsing::SyntaxSet);

/// two-face's lazily deserialized theme set, keyed by theme name.
#[verifier::external_type_specification]
#[verifier::external_body]
pub struct ExLazyThemeSet(two_face::theme::LazyThemeSet);

/// two-face's bundled syntaxes and themes, as syntect loads them. Only
/// [`SyntectAssets::load`] makes one, so every value holds exactly those.
pub struct SyntectAssets {
    syntaxes: syntect::parsing::SyntaxSet,
    themes: two_face::theme::LazyThemeSet,
}

/// two-face: `syntax::extra_newlines`, the bundled syntaxes for
/// newline-terminated lines.
#[verifier::external_body]
fn load_syntaxes() -> syntect::parsing::SyntaxSet {
    two_face::syntax::extra_newlines()
}

/// two-face: `theme::extra`, converted to a `LazyThemeSet` (`From`).
#[verifier::external_body]
fn load_themes() -> two_face::theme::LazyThemeSet {
    two_face::theme::LazyThemeSet::from(two_face::theme::extra())
}

impl SyntectAssets {
    /// Load two-face's syntaxes and themes (done once, on the highlight
    /// worker).
    pub fn load() -> Self {
        SyntectAssets { syntaxes: load_syntaxes(), themes: load_themes() }
    }
}

/// Whether two-face's syntaxes have one for language id `lang`, by token or
/// else by file extension.
pub uninterp spec fn syntect_has(lang: Seq<char>) -> bool;

/// The default foreground (empty scope stack) of two-face's theme named
/// `theme`, or `None` when there is no such theme.
pub uninterp spec fn theme_fg_of(theme: Seq<char>) -> Option<Rgb>;

/// The foreground two-face's theme named `theme` gives the TextMate scope
/// `scope`, or `None` when there is no such theme or `scope` does not parse.
pub uninterp spec fn scope_color_of(theme: Seq<char>, scope: Seq<char>) -> Option<Rgb>;

/// syntect's styled ranges (foreground, text) for each line of `text` (each
/// line with its terminator), highlighted as language `lang` in two-face's
/// theme `theme`; a line syntect failed on is `None`; the whole is `None` when
/// there is no such syntax or theme.
pub uninterp spec fn syntect_run(lang: Seq<char>, theme: Seq<char>, text: Seq<char>)
    -> Option<Seq<Option<Seq<(Rgb, Seq<char>)>>>>;

/// The view of syntect's per-line results.
pub open spec fn run_view(r: Option<Vec<Option<Vec<(Rgb, String)>>>>) -> Option<Seq<Option<Seq<(Rgb, Seq<char>)>>>> {
    match r {
        Some(v) => Some(v@.map_values(|l: Option<Vec<(Rgb, String)>>| match l {
            Some(rs) => Some(ranges_view(rs@)),
            None => None,
        })),
        None => None,
    }
}

/// syntect: `SyntaxSet::find_syntax_by_token`, else `find_syntax_by_extension`.
/// Claimed: whether one is found is the named [`syntect_has`] (the set is
/// always two-face's).
#[verifier::external_body]
fn syntax_known(assets: &SyntectAssets, lang: &str) -> (r: bool)
    ensures
        r == syntect_has(lang@),
{
    let s = &assets.syntaxes;
    s.find_syntax_by_token(lang).or(s.find_syntax_by_extension(lang)).is_some()
}

/// The active theme's default foreground (empty scope stack). two-face:
/// `LazyThemeSet::get` by name; syntect: `Highlighter::style_for_stack(&[])`.
/// Claimed: the result is the named [`theme_fg_of`].
#[verifier::external_body]
pub fn theme_fg(assets: &SyntectAssets, theme: &str) -> (r: Option<Rgb>)
    ensures
        r == theme_fg_of(theme@),
{
    let t = assets.themes.get(theme)?;
    let c = syntect::highlighting::Highlighter::new(t).style_for_stack(&[]).foreground;
    Some((c.r, c.g, c.b))
}

/// two-face: `LazyThemeSet::get` by name; syntect: `Scope::new(scope)` and
/// `Highlighter::style_for_stack(&[scope])`. Claimed: the result is the named
/// [`scope_color_of`].
#[verifier::external_body]
fn scope_fg(assets: &SyntectAssets, theme: &str, scope: &str) -> (r: Option<Rgb>)
    ensures
        r == scope_color_of(theme@, scope@),
{
    let t = assets.themes.get(theme)?;
    let s = syntect::parsing::Scope::new(scope).ok()?;
    let c = syntect::highlighting::Highlighter::new(t).style_for_stack(&[s]).foreground;
    Some((c.r, c.g, c.b))
}

/// syntect: the syntax as [`syntax_known`] finds it, two-face's theme by name,
/// `HighlightLines::new`, then `highlight_line` on each line of
/// `LinesWithEndings::from(text)`, each styled range converted to its
/// foreground and text. Claimed: the result is the named [`syntect_run`], with
/// one entry per line (`LinesWithEndings` splits after each `'\n'`, as
/// [`line_tokens`] does).
#[verifier::external_body]
fn syntect_ranges(assets: &SyntectAssets, lang: &str, theme: &str, text: &str) -> (r: Option<Vec<Option<Vec<(Rgb, String)>>>>)
    ensures
        run_view(r) == syntect_run(lang@, theme@, text@),
        r matches Some(v) ==> v@.len() == line_tokens(text@).len(),
{
    let s = &assets.syntaxes;
    let syntax = s.find_syntax_by_token(lang).or(s.find_syntax_by_extension(lang))?;
    let mut h = syntect::easy::HighlightLines::new(syntax, assets.themes.get(theme)?);
    let lines = syntect::util::LinesWithEndings::from(text);
    Some(lines.map(|l| h.highlight_line(l, s).ok().map(|rs| rs.into_iter()
        .map(|(st, t)| ((st.foreground.r, st.foreground.g, st.foreground.b), t.to_string())).collect())).collect())
}

/// The spans of syntect's per-line results over the lines `lines` of a text:
/// a highlighted line's ranges become spans ([`syntect_spans_spec`]); a line
/// syntect failed on becomes one span of the line, without its line end, in
/// the default foreground `fg`.
pub open spec fn syntect_lines_spec(lines: Seq<Seq<char>>, fg: Rgb, res: Seq<Option<Seq<(Rgb, Seq<char>)>>>) -> Seq<Seq<SpanV>> {
    Seq::new(res.len(), |i: int| match res[i] {
        Some(rs) => syntect_spans_spec(rs),
        None => seq![SpanV { text: trim_eol_chars(lines[i]), paint: Paint::Fixed(fg) }],
    })
}

/// syntect highlighting of `text` as language `lang` in theme `theme` (see
/// [`syntect_lines_spec`]); `None` when two-face has no such syntax or theme.
pub open spec fn syntect_highlight_spec(lang: Seq<char>, theme: Seq<char>, text: Seq<char>) -> Option<Seq<Seq<SpanV>>> {
    match (theme_fg_of(theme), syntect_run(lang, theme, text)) {
        (Some(fg), Some(res)) => Some(syntect_lines_spec(line_tokens(text), fg, res)),
        _ => None,
    }
}

/// Highlight `text` as language `lang` with syntect in two-face's theme
/// `theme`: per line, the styled ranges as baked-color spans, or the whole
/// line in the theme's default foreground where syntect failed (see
/// [`syntect_highlight_spec`]).
pub fn syntect_highlight(assets: &SyntectAssets, lang: &str, theme: &str, text: &str) -> (r: Option<Vec<Vec<Span>>>)
    ensures
        opt_lines_view(r) == syntect_highlight_spec(lang@, theme@, text@),
{
    let fg = match theme_fg(assets, theme) {
        Some(c) => c,
        None => return None,
    };
    let res = match syntect_ranges(assets, lang, theme, text) {
        Some(v) => v,
        None => return None,
    };
    let ghost rv = run_view(Some(res))->0;
    let ghost toks = line_tokens(text@);
    let cs = chars_of(text);
    let b = line_token_bounds(&cs);
    let mut out: Vec<Vec<Span>> = Vec::new();
    let mut i: usize = 0;
    while i < res.len()
        invariant
            i <= res@.len(),
            res@.len() == b@.len(),
            b@.len() == toks.len(),
            cs@ == text@,
            toks == line_tokens(cs@),
            rv == run_view(Some(res))->0,
            forall|y: int| 0 <= y < b@.len() ==> (#[trigger] b@[y]).0 <= b@[y].1 <= cs@.len()
                && cs@.subrange(b@[y].0 as int, b@[y].1 as int) == line_tokens(cs@)[y],
            span_lines_view(out@) == syntect_lines_spec(toks, fg, rv).take(i as int),
        decreases res@.len() - i,
    {
        let spans = match &res[i] {
            Some(rs) => syntect_spans(rs.as_slice()),
            None => {
                let (lo, hi) = b[i];
                let line = string_of_range(cs.as_slice(), lo, hi);
                syntect_fallback(line.as_str(), fg)
            },
        };
        let ghost before = span_lines_view(out@);
        out.push(spans);
        proof {
            assert(span_lines_view(out@) =~= before.push(crate::highlight::spans_view(spans@)));
            assert(syntect_lines_spec(toks, fg, rv).take(i + 1)
                =~= syntect_lines_spec(toks, fg, rv).take(i as int).push(syntect_lines_spec(toks, fg, rv)[i as int]));
        }
        i = i + 1;
    }
    proof {
        assert(syntect_lines_spec(toks, fg, rv).take(i as int) =~= syntect_lines_spec(toks, fg, rv));
    }
    Some(out)
}

/// The view of an optional language id.
pub open spec fn opt_str_view(s: Option<&str>) -> Option<Seq<char>> {
    match s {
        Some(l) => Some(l@),
        None => None,
    }
}

/// Highlight `text` as `lang` in two-face's theme `theme`: with the bundled
/// tree-sitter grammar when there is one (and its configuration builds), else
/// with syntect when two-face has the syntax, else as plain text.
pub open spec fn highlight_spec(lang: Option<Seq<char>>, theme: Seq<char>, text: Seq<char>) -> Seq<Seq<SpanV>> {
    match lang {
        Some(l) => match ts_highlight_spec(l, text) {
            Some(ls) => ls,
            None => match syntect_highlight_spec(l, theme, text) {
                Some(ls) => ls,
                None => plain_spec(text),
            },
        },
        None => plain_spec(text),
    }
}

/// Per-line styled spans for `text` in language `lang` (see
/// [`highlight_spec`]): tree-sitter, then syntect, then plain.
pub fn highlight_text(assets: &SyntectAssets, lang: Option<&str>, theme: &str, text: &str) -> (r: Vec<Vec<Span>>)
    ensures
        span_lines_view(r@) == highlight_spec(opt_str_view(lang), theme@, text@),
{
    if let Some(l) = lang {
        if let Some(lines) = ts_highlight(l, text) {
            return lines;
        }
        if let Some(lines) = syntect_highlight(assets, l, theme, text) {
            return lines;
        }
    }
    plain(text)
}

/// Whether language `lang` is highlighted through syntect, whose results
/// bake theme colors and must be recomputed on a theme change: it has no
/// bundled tree-sitter key and two-face has its syntax. Tree-sitter and plain
/// results are theme-independent.
pub fn theme_dependent(assets: &SyntectAssets, lang: Option<&str>) -> (r: bool)
    ensures
        r == match opt_str_view(lang) {
            Some(l) => ts_key_spec(l) is None && syntect_has(l),
            None => false,
        },
{
    match lang {
        Some(l) => ts_key(l).is_none() && syntax_known(assets, l),
        None => false,
    }
}

/// The color theme `theme` gives TextMate scope `scope`: its foreground for
/// the scope, or the default foreground when the scope does not parse.
/// `None` when there is no such theme.
pub fn scope_color(assets: &SyntectAssets, theme: &str, scope: &str) -> (r: Option<Rgb>)
    ensures
        r == match theme_fg_of(theme@) {
            Some(d) => Some(match scope_color_of(theme@, scope@) {
                Some(c) => c,
                None => d,
            }),
            None => None,
        },
{
    let d = match theme_fg(assets, theme) {
        Some(d) => d,
        None => return None,
    };
    match scope_fg(assets, theme, scope) {
        Some(c) => Some(c),
        None => Some(d),
    }
}

/// Whether theme `theme` explicitly themes `scope`: the scope parses and its
/// color differs from the default foreground.
pub fn scope_defined(assets: &SyntectAssets, theme: &str, scope: &str) -> (r: bool)
    ensures
        r == match (scope_color_of(theme@, scope@), theme_fg_of(theme@)) {
            (Some(c), Some(d)) => c != d,
            _ => false,
        },
{
    let d = match theme_fg(assets, theme) {
        Some(d) => d,
        None => return false,
    };
    match scope_fg(assets, theme, scope) {
        Some(c) => c.0 != d.0 || c.1 != d.1 || c.2 != d.2,
        None => false,
    }
}

/// The color of tree-sitter capture `name` in theme `theme` with default
/// foreground `fg`: the color of the capture's scope, or `fg` when it has no
/// scope or the scope does not parse.
pub open spec fn capture_color(theme: Seq<char>, fg: Rgb, name: Seq<char>) -> Rgb {
    let scope = capture_scope_spec(name.take(first_dot_from(name, 0)));
    if scope.len() == 0 {
        fg
    } else {
        match scope_color_of(theme, scope) {
            Some(c) => c,
            None => fg,
        }
    }
}

/// The per-capture color table for theme `theme`, indexed by
/// `Paint::Capture(i)` (one slot per capture name); `None` when there is no
/// such theme.
pub fn syntax_table(assets: &SyntectAssets, theme: &str) -> (r: Option<Vec<Rgb>>)
    ensures
        match theme_fg_of(theme@) {
            Some(fg) => r matches Some(t) && t@ == capture_names_spec().map_values(|n: Seq<char>| capture_color(theme@, fg, n)),
            None => r is None,
        },
{
    let fg = match theme_fg(assets, theme) {
        Some(c) => c,
        None => return None,
    };
    let names = capture_names();
    let ghost nv = names@.map_values(|s: String| s@);
    let mut out: Vec<Rgb> = Vec::new();
    let mut i: usize = 0;
    while i < names.len()
        invariant
            i <= names@.len(),
            nv == names@.map_values(|s: String| s@),
            nv == capture_names_spec(),
            theme_fg_of(theme@) == Some(fg),
            out@ == nv.take(i as int).map_values(|n: Seq<char>| capture_color(theme@, fg, n)),
        decreases names@.len() - i,
    {
        let scope = scope_for_capture(names[i].as_str());
        assert(nv[i as int] == names@[i as int]@);
        let c = if scope.unicode_len() == 0 {
            fg
        } else {
            match scope_fg(assets, theme, scope) {
                Some(c) => c,
                None => fg,
            }
        };
        out.push(c);
        proof {
            assert(nv.take(i + 1) =~= nv.take(i as int).push(nv[i as int]));
            assert(out@ =~= nv.take(i + 1).map_values(|n: Seq<char>| capture_color(theme@, fg, n)));
        }
        i = i + 1;
    }
    proof {
        assert(nv.take(i as int) =~= nv);
    }
    Some(out)
}

} // verus!
