//! The errors that end a lexing pass.

use crate::token::Position;
use vstd::prelude::*;

verus! {

/// What was wrong with the input.
#[derive(Clone, Copy, Debug, PartialEq, Eq)]
pub enum LexErrorKind {
    /// A byte that starts no token and is not whitespace.
    UnrecognizedCharacter,
    /// A run of number characters that is neither an integer nor a decimal float.
    InvalidNumber,
    /// A string literal with no closing quote before the end of the input.
    UnterminatedString,
    /// A backslash followed by a byte that is not an escape code.
    InvalidEscape,
    /// A character literal whose value is not followed by a closing quote.
    UnterminatedChar,
    /// The input ended inside a character literal.
    UnexpectedEof,
}

/// A lexing failure: its kind, the byte of the source that it points at, and
/// the position of that byte.
///
/// An unrecognized character, an unknown escape code and the byte found in
/// place of the closing quote of a character literal are pointed at
/// themselves. An invalid number is pointed at by its first digit. A
/// string or character literal that the end of the input cuts short is
/// pointed at by its opening quote.
#[derive(Clone, Copy, Debug, PartialEq, Eq)]
pub struct LexError {
    pub kind: LexErrorKind,
    pub byte: u8,
    pub pos: Position,
}

} // verus!
