//! A configuration-driven, in-place text substitution engine.
//!
//! A [`query::Query`] describes one search-and-replace rule, either a literal
//! substring or a regular expression with a replacement template.  A
//! [`line_patcher::LinePatcher`] applies a single query to one line.  A
//! [`file_patcher::FilePatcher`] applies an ordered list of queries to every
//! line of a file's contents, first matching query wins, and records each
//! changed line as a [`file_patcher::Replacement`].

pub mod diff;
pub mod file_patcher;
pub mod line_patcher;
pub mod lines;
pub mod query;
pub mod text;

pub use file_patcher::FilePatcher;
pub use file_patcher::Replacement;
pub use line_patcher::LinePatcher;
pub use query::Query;
