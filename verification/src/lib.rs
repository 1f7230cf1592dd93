//! A small query language over Markdown documents.
//!
//! A query such as `SELECT headings, text "draft" FROM "notes.md"` goes
//! through three stages, each of which may fail and stop the rest:
//!
//! * [`tokenizer`] splits the text into tokens with their line and column;
//! * [`parser`] turns the tokens into a [`parser::Query`];
//! * [`executor`] runs the query against the document and collects
//!   headings, paragraphs and matching text.
//!
//! The functions are verified against mathematical models of what they
//! compute; the models are the `spec` functions next to them. [`grammar`]
//! states how queries are written and proves that a written query is read
//! back unchanged. [`document`] holds the document tree and the calls into
//! the `markdown` crate, and [`text`] the contracts assumed of the standard
//! library's character and string functions. What is assumed rather than
//! proved is marked `Trusted` where it stands.
//!
//! The library does no input or output: the caller reads the document and
//! hands its text to [`executor::MarkdownQueryExecutor::execute_query`].

pub mod document;
pub mod executor;
pub mod grammar;
pub mod parser;
pub mod text;
pub mod tokenizer;
