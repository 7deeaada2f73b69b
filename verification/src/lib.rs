//! A small line-search library: given a query string and a body of text, it
//! returns the lines of the text that contain the query, either exactly or
//! after lowercasing both sides, together with the configuration and
//! orchestration logic around that search.

pub mod config;
pub mod matcher;
pub mod runner;
pub mod text;

pub use config::Config;
pub use config::ConfigError;
pub use matcher::search;
pub use matcher::search_case_insensitive;
pub use runner::run_on_contents;
pub use runner::run_on_read;
pub use runner::RunError;
pub use text::split_lines;
