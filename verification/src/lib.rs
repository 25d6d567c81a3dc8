//! A lexical analyzer for a small declarative language.
//!
//! The lexer turns raw source text into an ordered sequence of typed tokens,
//! each annotated with its source position.  Malformed input never aborts the
//! scan: an `Error` token is substituted at the point of failure and scanning
//! resumes immediately after, so a caller can report every lexical error in a
//! single pass.

pub mod token;
pub mod model;
pub mod lexer;
pub mod laws;
