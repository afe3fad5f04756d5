//! A two-stage front end for a small page-description markup language.
//!
//! Source text describes, per target document, a location, an optional
//! display name, and a tree of selection rules with repetition counts.
//! The tokenizer turns characters into tokens, the parser turns tokens
//! into a `Page`/`Element` tree, and the selector classifier turns a
//! raw selector string into its semantic tag/attribute/combined form.

pub mod lexer;
pub mod parser;
pub mod reader;
pub mod scrape;
pub mod token;

pub use parser::Error;
pub use parser::Parser;
