//! A markdown-to-HTML engine: a block tokenizer, an inline formatter and an
//! HTML renderer, in two conformance levels — a baseline subset and an
//! extended dialect that adds tables, alert callouts, strikethrough and
//! task-list checkboxes.
//!
//! A document arrives as a string, is split into block tokens (headings,
//! paragraphs, code blocks, lists, tables, blockquotes, alerts, rules),
//! each textual run is inline-formatted into HTML-safe markup, and the token
//! sequence is rendered to a final HTML string together with a word count.

pub mod basic_parser;
pub mod engine;
pub mod gfm_parser;
pub mod inline;
pub mod parser;
pub mod paths;
pub mod render;
pub mod renderer;
pub mod text;

pub use text::count_words;
