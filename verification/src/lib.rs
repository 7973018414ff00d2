//! A two-stage JSON syntax checker.
//!
//! The [`lexer::Lexer`] turns raw text into a flat stream of tokens that
//! always ends with a single end-of-file marker; it never fails, deferring
//! every lexical judgement to the second stage. The [`parser::Parser`] walks
//! that stream once with a single forward cursor, checks it against the JSON
//! grammar, and reports either success or the first violation together with
//! its recorded position. No value tree is ever built: the only output is a
//! verdict.

/// The first stage: text to tokens.
pub mod lexer;
/// The error messages the validator reports, stated character by
/// character.
pub mod messages;
/// The lexical grammar of number literals.
pub mod number;
/// The second stage: tokens to a verdict.
pub mod parser;
/// Tokens, their kinds, and well-formed token streams.
pub mod token;

pub use lexer::Lexer;
pub use parser::Parser;
pub use token::Token;
pub use token::TokenType;
