//! Flattens the text files of a directory tree into one annotated line
//! stream: a configuration names which extensions and filenames to pick,
//! a selector resolves the effective rule, and an aggregator wraps each
//! matched file's lines in tagged delimiters, in a deterministic order.

pub mod aggregate;
pub mod config;
pub mod paths;
pub mod reader;
pub mod selector;
pub mod timestamp;
pub mod util;

pub use aggregate::aggregate;
pub use aggregate::aggregate_parallel;
pub use aggregate::build_file_block;
pub use aggregate::filter_entries;
pub use aggregate::make_file_data;
pub use aggregate::Entry;
pub use aggregate::FileData;
pub use config::Config;
pub use config::Project;
pub use paths::basename_of;
pub use paths::extension_of;
pub use paths::matches_rule;
pub use reader::split_lines;
pub use reader::uses_buffered_read;
pub use selector::resolve;
pub use selector::SelectionRule;
pub use selector::SelectorError;
