//! A verified lexical-analysis front end: it turns a raw byte stream of
//! source text into an ordered sequence of classified tokens.
//!
//! The caller supplies the full source with a single NUL byte appended as an
//! end-of-stream sentinel; `lexer::process` scans it in one synchronous pass
//! and returns either every lexeme found or the first error met.

pub mod laws;
pub mod lexer;
pub mod model;
pub mod tokens;
