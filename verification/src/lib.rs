//! A small line-oriented substring search library.
//!
//! A document is split into lines; a search returns, in document order, the
//! lines that contain a query string, either exactly or after lower-casing
//! both sides. Configuration parsing and report formatting for the
//! command-line front end live here as well, each with a full contract.

pub mod config;
pub mod lines;
pub mod report;
pub mod search;
pub mod text;

pub use config::Config;
pub use config::ConfigError;
pub use report::render_report;
pub use search::search;
pub use search::search_case_insensitive;
pub use search::search_lines;
