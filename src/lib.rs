//! Line-oriented text search: pick out the lines of a text that contain a query,
//! either exactly or after folding both sides to lower case.
mod config;
mod search;
mod text;

pub use config::{lemma_equal_whatever_the_mode, missing_arguments_message, Config};
pub use search::{
    folding_keeps_query, lemma_case_insensitive_covers, line_test, lower_of, matches_line,
    matching_lines, search, search_case_insensitive, search_lines,
};
pub use text::{
    contains_text, has_substring, lines_of, newline_index, occurs_at, split_lines, texts,
    without_cr,
};
