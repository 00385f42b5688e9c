//! A tokenizer for a small language.
//!
//! The crate turns source text into a sequence of lexical tokens and reports
//! the first lexical fault together with the line and column at which it was
//! found.
pub mod error;
pub mod grammar;
pub mod laws;
pub mod lex;
pub mod text;
pub mod trusted;
pub mod util;
