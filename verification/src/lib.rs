//! Lexical analysis for a small C subset.
//!
//! The lexer turns source text into a stream of tokens: the keywords `int`
//! and `return`, identifiers, decimal integer literals, and the punctuation
//! characters `(`, `)`, `{`, `}` and `;`. Tokens are pulled one at a time
//! with [`Lexer::next`]; whitespace between tokens is skipped, and a
//! character that fits no token class is reported as a [`LexError`].

pub mod classify;
pub mod laws;
pub mod lexer;
pub mod model;
pub mod token;

pub use lexer::Lexer;
pub use token::LexError;
pub use token::Token;
