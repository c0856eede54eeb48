//! rediff: a terminal tool for reading git diffs file by file. Its logic: the
//! hunk model and its construction, intra-line emphasis, path filters, row
//! planning for the diff stream, sidebar and stream navigation, reviewed-file
//! tracking, fuzzy matching, the blame gutter, highlighting layout and the
//! persisted preferences.

pub mod text;
pub mod model;
pub mod config;
pub mod diff;
pub mod emphasis;
pub mod git;
pub mod lang;
pub mod highlight;
pub mod treesitter;
pub mod engine;
pub mod theme;
pub mod tui;
