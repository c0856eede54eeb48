//! Persisted preferences (`theme`, `mode`) from the user's config file. A
//! missing or malformed config falls back to defaults without error; CLI
//! flags override. Reading and writing the file is the caller's; this module
//! interprets the values and edits the TOML text.

use vstd::prelude::*;
use crate::model::LayoutMode;
use crate::text::{lowercase, to_lowercase};

verus! {

/// The user's preferences.
#[derive(Debug)]
pub struct Config {
    /// A theme name ("dark" | "light" | a theme's name).
    pub theme: Option<String>,
    /// "split" | "stack" (or "auto"/unset to pick by terminal width at startup).
    pub mode: Option<String>,
}

impl Default for Config {
    fn default() -> (c: Config)
        ensures
            c.theme is None,
            c.mode is None,
    {
        Config { theme: None, mode: None }
    }
}

/// The layout an already-lowercased mode string names: `"split"` or
/// `"stack"`; anything else (`"auto"` among them) names none.
pub open spec fn mode_of(lower: Seq<char>) -> Option<LayoutMode> {
    if lower == "split"@ {
        Some(LayoutMode::Split)
    } else if lower == "stack"@ {
        Some(LayoutMode::Stack)
    } else {
        None
    }
}

/// The layout an already-lowercased mode string names (see [`mode_of`]).
pub fn mode_from_lowered(lower: &str) -> (r: Option<LayoutMode>)
    ensures
        r == mode_of(lower@),
{
    let split = "split";
    let stack = "stack";
    proof {
        reveal_strlit("split");
        reveal_strlit("stack");
    }
    if crate::text::str_eq(lower, split) {
        Some(LayoutMode::Split)
    } else if crate::text::str_eq(lower, stack) {
        Some(LayoutMode::Stack)
    } else {
        None
    }
}

/// Parse an explicit layout-mode string, case-insensitively. `"auto"` (and
/// anything unrecognized) returns `None`, meaning "pick by terminal width at
/// startup".
pub fn parse_mode(s: &str) -> (r: Option<LayoutMode>)
    ensures
        r == mode_of(lowercase(s@)),
{
    let lower = to_lowercase(s);
    mode_from_lowered(lower.as_str())
}

impl Config {
    /// The configured layout, if `mode` names one (see [`parse_mode`]).
    pub fn layout_mode(&self) -> (r: Option<LayoutMode>)
        ensures
            r == (match self.mode {
                Some(m) => mode_of(lowercase(m@)),
                None => None,
            }),
    {
        match &self.mode {
            Some(m) => parse_mode(m.as_str()),
            None => None,
        }
    }
}

/// toml_edit's parse error.
#[verifier::external_type_specification]
#[verifier::external_body]
pub struct ExTomlError(toml_edit::TomlError);

/// Whether toml_edit parses `text` as a TOML document.
pub uninterp spec fn toml_parses(text: Seq<char>) -> bool;

/// The text toml_edit renders after parsing `text` and setting top-level
/// `key` to the string `value` (other items and comments are kept by
/// toml_edit's format-preserving document).
pub uninterp spec fn with_string_key(text: Seq<char>, key: Seq<char>, value: Seq<char>) -> Seq<char>;

/// The text toml_edit renders for a new, empty document with top-level `key`
/// set to the string `value`.
pub uninterp spec fn fresh_with_string_key(key: Seq<char>, value: Seq<char>) -> Seq<char>;

/// toml_edit: `str::parse::<DocumentMut>` (its `FromStr`), then
/// `doc[key] = toml_edit::value(value)` (`IndexMut<&str>`, which inserts the
/// key when absent; the root is a table, so it does not panic) and the
/// document's `Display`. Claimed: it succeeds exactly when the named
/// [`toml_parses`] holds of the text, and then the result is the named
/// [`with_string_key`] of its arguments.
#[verifier::external_body]
fn set_string_key(text: &str, key: &str, value: &str) -> (r: Result<String, toml_edit::TomlError>)
    ensures
        r is Ok <==> toml_parses(text@),
        r matches Ok(t) ==> t@ == with_string_key(text@, key@, value@),
{
    let mut doc = text.parse::<toml_edit::DocumentMut>()?;
    doc[key] = toml_edit::value(value);
    Ok(doc.to_string())
}

/// toml_edit: `DocumentMut::new`, then `doc[key] = toml_edit::value(value)`
/// and the document's `Display`. Claimed: the result is the named
/// [`fresh_with_string_key`] of its arguments.
#[verifier::external_body]
fn fresh_string_key(key: &str, value: &str) -> (r: String)
    ensures
        r@ == fresh_with_string_key(key@, value@),
{
    let mut doc = toml_edit::DocumentMut::new();
    doc[key] = toml_edit::value(value);
    doc.to_string()
}

/// Why a config edit was refused.
#[derive(Debug, Clone, Copy, PartialEq, Eq, Structural)]
pub enum ConfigError {
    /// The existing config is not valid TOML; it is left untouched rather than
    /// overwritten (which would lose the user's other keys and comments).
    Malformed,
}

/// The config text with `theme` set, everything else preserved: `existing`
/// is the current file's text (`None` when there is no file, which starts a
/// fresh document). A malformed existing file is an error, never clobbered.
pub fn themed_document(existing: Option<&str>, theme: &str) -> (r: Result<String, ConfigError>)
    ensures
        match existing {
            Some(t) => {
                &&& r is Err <==> !toml_parses(t@)
                &&& r matches Err(e) ==> e == ConfigError::Malformed
                &&& r matches Ok(o) ==> o@ == with_string_key(t@, "theme"@, theme@)
            },
            None => r matches Ok(o) && o@ == fresh_with_string_key("theme"@, theme@),
        },
{
    let key = "theme";
    match existing {
        Some(text) => match set_string_key(text, key, theme) {
            Ok(t) => Ok(t),
            Err(_) => Err(ConfigError::Malformed),
        },
        None => Ok(fresh_string_key(key, theme)),
    }
}

/// The layout to start in: a recognized `flag` wins, else the config's
/// `mode`; `None` leaves the choice to the terminal width at startup.
pub open spec fn resolve_mode_spec(flag: Option<Seq<char>>, cfg_mode: Option<Seq<char>>) -> Option<LayoutMode> {
    let from_flag = match flag {
        Some(f) => mode_of(lowercase(f)),
        None => None,
    };
    if from_flag is Some {
        from_flag
    } else {
        match cfg_mode {
            Some(m) => mode_of(lowercase(m)),
            None => None,
        }
    }
}

/// The layout to start in, by precedence: CLI flag, then config file, then
/// none (see [`resolve_mode_spec`]).
pub fn resolve_mode(flag: Option<&str>, cfg: &Config) -> (r: Option<LayoutMode>)
    ensures
        r == resolve_mode_spec(match flag {
            Some(f) => Some(f@),
            None => None,
        }, match cfg.mode {
            Some(m) => Some(m@),
            None => None,
        }),
{
    let from_flag = match flag {
        Some(f) => parse_mode(f),
        None => None,
    };
    match from_flag {
        Some(m) => Some(m),
        None => cfg.layout_mode(),
    }
}

/// The theme name to use, by precedence: CLI flag, then config file; `None`
/// for the default theme.
pub fn resolve_theme(flag: Option<&str>, cfg: &Config) -> (r: Option<String>)
    ensures
        flag matches Some(f) ==> (r matches Some(t) && t@ == f@),
        flag is None ==> (match cfg.theme {
            Some(c) => (r matches Some(t) && t@ == c@),
            None => r is None,
        }),
{
    match flag {
        Some(f) => Some(f.to_string()),
        None => match &cfg.theme {
            Some(t) => Some(t.clone()),
            None => None,
        },
    }
}

} // verus!
