//! Lexical-analysis front end of a small language toolchain.
//!
//! The scanner walks a source text character by character, tracks the
//! line and column of the cursor, and emits a sequence of classified
//! tokens (or per-character errors) ending in a single end-of-file token.
//!
//! The behaviour of the scanner is captured by the mathematical model in
//! [`scan`]: [`lexer::Lexer::lex`] is proved to return exactly the result
//! sequence that [`scan::scan_all`] describes, and the general properties
//! of scanning (termination in an end-of-file token, lossless accounting
//! of every source character, line and column discipline, single-character
//! error lexemes, determinism) are proved of that model in [`scan`].

pub mod lexer;
pub mod scan;
pub mod token;
