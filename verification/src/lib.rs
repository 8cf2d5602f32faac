//! Grok patterns: named, reusable regular expressions written as `%{NAME:alias:type}`
//! tokens, expanded into one regular expression and matched against text.
//!
//! A [`Grok`] holds pattern definitions; [`Grok::compile`] expands a pattern
//! text into a [`Pattern`], and [`Pattern::parse`] matches a text and returns
//! the captured fields, each a [`Value`].

pub mod acceptance;
pub mod engine;
pub mod grok;
pub mod laws;
pub mod numbers;
pub mod pattern;
pub mod table;
pub mod text;
pub mod token;

pub use grok::Grok;
pub use pattern::{Pattern, Value};
pub use table::PatternTable;
