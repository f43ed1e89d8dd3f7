//! Workspace search: a path index ranked by fuzzy score and a content index
//! filtered by trigram signatures, with a freshness-keyed cache of both.
pub mod cache;
pub mod content;
pub mod files;
pub mod lsp;
pub mod overlap;
mod parallel;
pub mod path_match;
pub mod rank;
pub mod snapshot;
pub mod system;
pub mod trigram;
