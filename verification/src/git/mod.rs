//! Git-facing logic: path filters, commit records and history decisions, and
//! blame line attribution.

pub mod blame;
pub mod commits;
pub mod filter;
