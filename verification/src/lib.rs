//! A lexical analyzer for a small programming language.
//!
//! The lexer turns a buffer of source bytes into a sequence of classified
//! tokens, each with the line and column at which it starts. Lexing is
//! fail-fast: the first token that cannot be read ends the pass with an
//! error that names what was wrong and where.
//!
//! What lexing means is defined in [`grammar`], as a mathematical function
//! from the bytes of a source to its tokens. The executable [`Lexer`] is
//! proved to compute that function, and [`laws`] holds what is proved of
//! the function itself: that tokens tile the source in order, that reserved
//! words are keywords wherever they stand, that whitespace gives no token.
//!
//! Texts are bytes. Identifiers, floats and strings without escape
//! sequences are slices of the source buffer; nothing is copied but the
//! decoded value of a string literal that holds an escape sequence.

pub mod classify;
pub mod error;
pub mod escape;
pub mod grammar;
pub mod keyword;
pub mod laws;
pub mod lexer;
pub mod number;
pub mod position;
pub mod symbol;
pub mod token;

pub use crate::error::{LexError, LexErrorKind};
pub use crate::lexer::Lexer;
pub use crate::token::{Ident, Keyword, Kind, Literal, Position, Symbol, Token};
