//! Tree-sitter highlighting for the bundled languages: which grammar and
//! queries a language id uses, running the highlighter, and laying its
//! events out into per-line spans (falling back to plain text when the
//! highlighter fails).

use vstd::prelude::*;
use tree_sitter_highlight::{HighlightConfiguration, HighlightEvent, Highlighter};
use crate::highlight::{events_view, lines_from_events, plain, plain_spec, span_lines_view, ts_key, ts_key_spec,
    ts_lines_spec, HlEvent, HlEventV, Span, SpanV};
use crate::text::push_str;

verus! {

/// A bundled tree-sitter grammar.
#[derive(Debug, Clone, Copy, PartialEq, Eq, Structural)]
pub enum Grammar {
    Rust,
    Tsx,
    TypeScript,
    JavaScript,
}

/// A query file shipped with one of the bundled grammars.
#[derive(Debug, Clone, Copy, PartialEq, Eq, Structural)]
pub enum Query {
    RustHighlights,
    RustInjections,
    JsHighlights,
    JsJsxHighlights,
    JsInjections,
    JsLocals,
    TsHighlights,
}

/// The text of a bundled query file.
pub uninterp spec fn query_src(q: Query) -> Seq<char>;

/// tree-sitter-rust / -javascript / -typescript: the query constants
/// (`HIGHLIGHTS_QUERY`, `INJECTIONS_QUERY`, `HIGHLIGHT_QUERY`,
/// `JSX_HIGHLIGHT_QUERY`, `LOCALS_QUERY`). Claimed: the result is the named
/// [`query_src`] of `q`.
#[verifier::external_body]
fn query_text(q: Query) -> (r: &'static str)
    ensures
        r@ == query_src(q),
{
    match q {
        Query::RustHighlights => tree_sitter_rust::HIGHLIGHTS_QUERY,
        Query::RustInjections => tree_sitter_rust::INJECTIONS_QUERY,
        Query::JsHighlights => tree_sitter_javascript::HIGHLIGHT_QUERY,
        Query::JsJsxHighlights => tree_sitter_javascript::JSX_HIGHLIGHT_QUERY,
        Query::JsInjections => tree_sitter_javascript::INJECTIONS_QUERY,
        Query::JsLocals => tree_sitter_javascript::LOCALS_QUERY,
        Query::TsHighlights => tree_sitter_typescript::HIGHLIGHTS_QUERY,
    }
}

/// What a highlighter configuration is built from: its name, the three
/// query texts and the capture names it colors.
pub struct TsQueries {
    pub name: String,
    pub highlights: String,
    pub injections: String,
    pub locals: String,
    pub captures: Vec<String>,
}

/// The abstract value of [`TsQueries`].
pub struct TsQueriesV {
    pub name: Seq<char>,
    pub highlights: Seq<char>,
    pub injections: Seq<char>,
    pub locals: Seq<char>,
    pub captures: Seq<Seq<char>>,
}

impl View for TsQueries {
    type V = TsQueriesV;

    open spec fn view(&self) -> TsQueriesV {
        TsQueriesV {
            name: self.name@,
            highlights: self.highlights@,
            injections: self.injections@,
            locals: self.locals@,
            captures: self.captures@.map_values(|s: String| s@),
        }
    }
}

/// The outcome of running the highlighter.
pub enum TsRun {
    /// The configuration could not be built from the grammar and queries.
    NoConfig,
    /// The highlighter refused to start.
    Failed,
    /// The events it produced, in order.
    Events(Vec<HlEvent>),
}

/// The abstract value of a [`TsRun`].
pub enum TsRunV {
    NoConfig,
    Failed,
    Events(Seq<HlEventV>),
}

/// The view of a run.
pub open spec fn run_view(r: TsRun) -> TsRunV {
    match r {
        TsRun::NoConfig => TsRunV::NoConfig,
        TsRun::Failed => TsRunV::Failed,
        TsRun::Events(v) => TsRunV::Events(events_view(v@)),
    }
}

/// What tree-sitter-highlight makes of `text` with a configuration built
/// from `grammar` and `q` (events with their source runs cut out of `text`).
pub uninterp spec fn ts_run(grammar: Grammar, q: TsQueriesV, text: Seq<char>) -> TsRunV;

/// tree-sitter-highlight with tree-sitter-rust: `HighlightConfiguration::new`
/// over the Rust grammar and `q`'s texts, `configure(q.captures)`, then
/// `Highlighter::highlight` over `text`, each event converted (a source byte
/// range becomes that slice of `text`). Claimed: the result is the named
/// [`ts_run`].
#[verifier::external_body]
fn run_rust(q: &TsQueries, text: &str) -> (r: TsRun)
    ensures
        run_view(r) == ts_run(Grammar::Rust, q@, text@),
{
    let Ok(mut cfg) = HighlightConfiguration::new(tree_sitter_rust::LANGUAGE.into(), &q.name, &q.highlights, &q.injections, &q.locals) else { return TsRun::NoConfig };
    cfg.configure(&q.captures);
    let mut hl = Highlighter::new();
    let Ok(evs) = hl.highlight(&cfg, text.as_bytes(), None, |_| None) else { return TsRun::Failed };
    TsRun::Events(evs.map(|e| match e {
        Ok(HighlightEvent::HighlightStart(h)) => HlEvent::Start(h.0),
        Ok(HighlightEvent::HighlightEnd) => HlEvent::End,
        Ok(HighlightEvent::Source { start, end }) => HlEvent::Source(text.get(start..end).unwrap_or_default().to_string()),
        Err(_) => HlEvent::Failed,
    }).collect())
}

/// As [`run_rust`], over tree-sitter-typescript's TSX grammar.
#[verifier::external_body]
fn run_tsx(q: &TsQueries, text: &str) -> (r: TsRun)
    ensures
        run_view(r) == ts_run(Grammar::Tsx, q@, text@),
{
    let Ok(mut cfg) = HighlightConfiguration::new(tree_sitter_typescript::LANGUAGE_TSX.into(), &q.name, &q.highlights, &q.injections, &q.locals) else { return TsRun::NoConfig };
    cfg.configure(&q.captures);
    let mut hl = Highlighter::new();
    let Ok(evs) = hl.highlight(&cfg, text.as_bytes(), None, |_| None) else { return TsRun::Failed };
    TsRun::Events(evs.map(|e| match e {
        Ok(HighlightEvent::HighlightStart(h)) => HlEvent::Start(h.0),
        Ok(HighlightEvent::HighlightEnd) => HlEvent::End,
        Ok(HighlightEvent::Source { start, end }) => HlEvent::Source(text.get(start..end).unwrap_or_default().to_string()),
        Err(_) => HlEvent::Failed,
    }).collect())
}

/// As [`run_rust`], over tree-sitter-typescript's TypeScript grammar.
#[verifier::external_body]
fn run_typescript(q: &TsQueries, text: &str) -> (r: TsRun)
    ensures
        run_view(r) == ts_run(Grammar::TypeScript, q@, text@),
{
    let Ok(mut cfg) = HighlightConfiguration::new(tree_sitter_typescript::LANGUAGE_TYPESCRIPT.into(), &q.name, &q.highlights, &q.injections, &q.locals) else { return TsRun::NoConfig };
    cfg.configure(&q.captures);
    let mut hl = Highlighter::new();
    let Ok(evs) = hl.highlight(&cfg, text.as_bytes(), None, |_| None) else { return TsRun::Failed };
    TsRun::Events(evs.map(|e| match e {
        Ok(HighlightEvent::HighlightStart(h)) => HlEvent::Start(h.0),
        Ok(HighlightEvent::HighlightEnd) => HlEvent::End,
        Ok(HighlightEvent::Source { start, end }) => HlEvent::Source(text.get(start..end).unwrap_or_default().to_string()),
        Err(_) => HlEvent::Failed,
    }).collect())
}

/// As [`run_rust`], over tree-sitter-javascript's grammar.
#[verifier::external_body]
fn run_javascript(q: &TsQueries, text: &str) -> (r: TsRun)
    ensures
        run_view(r) == ts_run(Grammar::JavaScript, q@, text@),
{
    let Ok(mut cfg) = HighlightConfiguration::new(tree_sitter_javascript::LANGUAGE.into(), &q.name, &q.highlights, &q.injections, &q.locals) else { return TsRun::NoConfig };
    cfg.configure(&q.captures);
    let mut hl = Highlighter::new();
    let Ok(evs) = hl.highlight(&cfg, text.as_bytes(), None, |_| None) else { return TsRun::Failed };
    TsRun::Events(evs.map(|e| match e {
        Ok(HighlightEvent::HighlightStart(h)) => HlEvent::Start(h.0),
        Ok(HighlightEvent::HighlightEnd) => HlEvent::End,
        Ok(HighlightEvent::Source { start, end }) => HlEvent::Source(text.get(start..end).unwrap_or_default().to_string()),
        Err(_) => HlEvent::Failed,
    }).collect())
}

/// The texts of `qs` joined with newlines.
pub open spec fn joined(qs: Seq<Query>) -> Seq<char>
    decreases qs.len(),
{
    if qs.len() == 0 {
        Seq::empty()
    } else if qs.len() == 1 {
        query_src(qs[0])
    } else {
        joined(qs.drop_last()) + seq!['\n'] + query_src(qs.last())
    }
}

/// Join the texts of `qs` with newlines (see [`joined`]).
fn join_queries(qs: &[Query]) -> (r: String)
    ensures
        r@ == joined(qs@),
{
    let mut out = String::new();
    let mut k: usize = 0;
    while k < qs.len()
        invariant
            k <= qs@.len(),
            out@ == joined(qs@.take(k as int)),
        decreases qs@.len() - k,
    {
        assert(qs@.take(k + 1).drop_last() =~= qs@.take(k as int));
        if k > 0 {
            crate::text::push_char(&mut out, '\n');
        }
        push_str(&mut out, query_text(qs[k]));
        k = k + 1;
        assert(out@ =~= joined(qs@.take(k as int)));
    }
    assert(qs@.take(qs@.len() as int) =~= qs@);
    out
}

/// The capture names the highlighter colors; `Paint::Capture(i)` indexes
/// into this list.
pub open spec fn capture_names_spec() -> Seq<Seq<char>> {
    seq![
        "attribute"@, "comment"@, "constant"@, "constant.builtin"@, "constructor"@, "embedded"@,
        "function"@, "function.builtin"@, "function.method"@, "keyword"@, "number"@, "operator"@,
        "property"@, "punctuation"@, "punctuation.bracket"@, "punctuation.delimiter"@,
        "punctuation.special"@, "string"@, "string.special"@, "tag"@, "type"@, "type.builtin"@,
        "variable"@, "variable.builtin"@, "variable.parameter"@, "label"@, "module"@, "escape"@
    ]
}

/// The capture names the highlighter colors (see [`capture_names_spec`]).
pub fn capture_names() -> (r: Vec<String>)
    ensures
        r@.map_values(|s: String| s@) == capture_names_spec(),
{
    let v: Vec<String> = vec![
        String::from_str("attribute"), String::from_str("comment"), String::from_str("constant"),
        String::from_str("constant.builtin"), String::from_str("constructor"), String::from_str("embedded"),
        String::from_str("function"), String::from_str("function.builtin"), String::from_str("function.method"),
        String::from_str("keyword"), String::from_str("number"), String::from_str("operator"),
        String::from_str("property"), String::from_str("punctuation"), String::from_str("punctuation.bracket"),
        String::from_str("punctuation.delimiter"), String::from_str("punctuation.special"),
        String::from_str("string"), String::from_str("string.special"), String::from_str("tag"),
        String::from_str("type"), String::from_str("type.builtin"), String::from_str("variable"),
        String::from_str("variable.builtin"), String::from_str("variable.parameter"), String::from_str("label"),
        String::from_str("module"), String::from_str("escape"),
    ];
    assert(v@.map_values(|s: String| s@) =~= capture_names_spec());
    v
}

/// The grammar and queries (highlights, injections, locals) of a bundled
/// tree-sitter configuration key: Rust with its own highlights and
/// injections; TSX with the JavaScript, JSX and TypeScript highlights;
/// TypeScript with the JavaScript and TypeScript highlights; JavaScript with
/// its highlights, JSX highlights, injections and locals.
pub open spec fn ts_plan(key: Seq<char>) -> Option<(Grammar, Seq<Query>, Seq<Query>, Seq<Query>)> {
    if key == "rust"@ {
        Some((Grammar::Rust, seq![Query::RustHighlights], seq![Query::RustInjections], Seq::empty()))
    } else if key == "tsx"@ {
        Some((Grammar::Tsx, seq![Query::JsHighlights, Query::JsJsxHighlights, Query::TsHighlights], Seq::empty(), Seq::empty()))
    } else if key == "typescript"@ {
        Some((Grammar::TypeScript, seq![Query::JsHighlights, Query::TsHighlights], Seq::empty(), Seq::empty()))
    } else if key == "javascript"@ {
        Some((Grammar::JavaScript, seq![Query::JsHighlights, Query::JsJsxHighlights], seq![Query::JsInjections],
            seq![Query::JsLocals]))
    } else {
        None
    }
}

/// The configuration inputs of [`ts_plan`] for `key`, named by the key.
pub open spec fn plan_queries(key: Seq<char>, h: Seq<Query>, i: Seq<Query>, l: Seq<Query>) -> TsQueriesV {
    TsQueriesV { name: key, highlights: joined(h), injections: joined(i), locals: joined(l), captures: capture_names_spec() }
}

/// The lines of tree-sitter highlighting `text` as language `lang`: `None`
/// when `lang` has no bundled grammar or its configuration cannot be built
/// (the caller falls back to another highlighter); the [`plain_spec`] lines
/// when the highlighter refuses to start; else the layout of its events.
pub open spec fn ts_highlight_spec(lang: Seq<char>, text: Seq<char>) -> Option<Seq<Seq<SpanV>>> {
    match ts_key_spec(lang) {
        None => None,
        Some(key) => match ts_plan(key) {
            None => None,
            Some((g, h, i, l)) => match ts_run(g, plan_queries(key, h, i, l), text) {
                TsRunV::NoConfig => None,
                TsRunV::Failed => Some(plain_spec(text)),
                TsRunV::Events(evs) => Some(ts_lines_spec(text, evs)),
            },
        },
    }
}

/// The span-lines view of an optional result.
pub open spec fn opt_lines_view(r: Option<Vec<Vec<Span>>>) -> Option<Seq<Seq<SpanV>>> {
    match r {
        Some(v) => Some(span_lines_view(v@)),
        None => None,
    }
}

/// Highlight `text` as language `lang` with its bundled tree-sitter grammar
/// (see [`ts_highlight_spec`]).
pub fn ts_highlight(lang: &str, text: &str) -> (r: Option<Vec<Vec<Span>>>)
    ensures
        opt_lines_view(r) == ts_highlight_spec(lang@, text@),
{
    let key = match ts_key(lang) {
        Some(k) => k,
        None => return None,
    };
    proof {
        reveal_strlit("rust");
        reveal_strlit("tsx");
        reveal_strlit("typescript");
        reveal_strlit("javascript");
    }
    let (grammar, h, i, l): (Grammar, Vec<Query>, Vec<Query>, Vec<Query>) = if crate::text::str_eq(key, "rust") {
        (Grammar::Rust, vec![Query::RustHighlights], vec![Query::RustInjections], Vec::new())
    } else if crate::text::str_eq(key, "tsx") {
        (Grammar::Tsx, vec![Query::JsHighlights, Query::JsJsxHighlights, Query::TsHighlights], Vec::new(), Vec::new())
    } else if crate::text::str_eq(key, "typescript") {
        (Grammar::TypeScript, vec![Query::JsHighlights, Query::TsHighlights], Vec::new(), Vec::new())
    } else if crate::text::str_eq(key, "javascript") {
        (Grammar::JavaScript, vec![Query::JsHighlights, Query::JsJsxHighlights], vec![Query::JsInjections],
            vec![Query::JsLocals])
    } else {
        return None;
    };
    let q = TsQueries {
        name: key.to_string(),
        highlights: join_queries(h.as_slice()),
        injections: join_queries(i.as_slice()),
        locals: join_queries(l.as_slice()),
        captures: capture_names(),
    };
    proof {
        assert(ts_plan(key@) == Some((grammar, h@, i@, l@)));
        assert(q@ == plan_queries(key@, h@, i@, l@));
    }
    let run = match grammar {
        Grammar::Rust => run_rust(&q, text),
        Grammar::Tsx => run_tsx(&q, text),
        Grammar::TypeScript => run_typescript(&q, text),
        Grammar::JavaScript => run_javascript(&q, text),
    };
    match run {
        TsRun::NoConfig => None,
        TsRun::Failed => Some(plain(text)),
        TsRun::Events(evs) => Some(lines_from_events(text, evs.as_slice())),
    }
}

} // verus!
