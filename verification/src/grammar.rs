//! What lexing means: the tokens of a source buffer as a mathematical
//! function of its bytes.
//!
//! [`scan_token`] says which token starts at an offset, or why none does;
//! [`lex_from`] says which tokens follow an offset, skipping whitespace and
//! stopping at the first failure.

use crate::classify::{
    byte_at, is_digit, is_whitespace, is_word_start, lemma_run_end, run_end, ByteClass,
    APOSTROPHE, BACKSLASH, QUOTE,
};
use crate::error::{LexError, LexErrorKind};
use crate::escape::{
    decode, has_escape, is_char_escape, lemma_string_end_bounds, string_end, unescape, StringEnd,
};
use crate::keyword::keyword_of;
use crate::number::{integer_value, is_decimal_float};
use crate::position::position_at;
use crate::symbol::{symbol_of, symbol_width};
use crate::token::{KindView, LiteralView, TokenView};
use vstd::prelude::*;

verus! {

/// The result of reading one token.
pub enum Scan {
    /// A token of this kind, whose text ends before offset `end`.
    Token { kind: KindView, end: int },
    /// No token: the error of this kind points at offset `at`.
    Failure { error: LexErrorKind, at: int },
}

/// The error of kind `kind` that points at the byte at offset `at` of `src`.
pub open spec fn error_at(src: Seq<u8>, kind: LexErrorKind, at: int) -> LexError {
    LexError { kind, byte: src[at], pos: position_at(src, at) }
}

/// A word: the longest run of letters, digits and underscores. It is a
/// keyword when the table of reserved words holds it, an identifier
/// otherwise.
pub open spec fn scan_word(src: Seq<u8>, i: int) -> Scan {
    let end = run_end(src, i, ByteClass::Word);
    let text = src.subrange(i, end);
    match keyword_of(text) {
        Some(keyword) => Scan::Token { kind: KindView::Keyword(keyword), end },
        None => Scan::Token { kind: KindView::Identifier(text), end },
    }
}

/// A number: the longest run of digits and the bytes `.`, `e`, `E`, `-`,
/// read as an integer if it is one, else as a decimal float if it is one.
pub open spec fn scan_number(src: Seq<u8>, i: int) -> Scan {
    let end = run_end(src, i, ByteClass::Number);
    let text = src.subrange(i, end);
    if let Some(n) = integer_value(text) {
        Scan::Token { kind: KindView::Literal(LiteralView::Int(n)), end }
    } else if is_decimal_float(text) {
        Scan::Token { kind: KindView::Literal(LiteralView::Float(text)), end }
    } else {
        Scan::Failure { error: LexErrorKind::InvalidNumber, at: i }
    }
}

/// A string literal, whose opening quote stands at offset `i`. Its value
/// is the decoded body; it is borrowed from the source exactly when the
/// body holds no escape sequence. An unterminated literal is reported at
/// its opening quote, an unknown escape at the byte after the backslash.
pub open spec fn scan_string(src: Seq<u8>, i: int) -> Scan {
    match string_end(src, i + 1) {
        StringEnd::Closed(close) => {
            let body = src.subrange(i + 1, close);
            Scan::Token {
                kind: KindView::Literal(
                    LiteralView::String { value: decode(body), borrowed: !has_escape(body) },
                ),
                end: close + 1,
            }
        },
        StringEnd::BadEscape(at) => Scan::Failure { error: LexErrorKind::InvalidEscape, at },
        StringEnd::Unterminated => Scan::Failure { error: LexErrorKind::UnterminatedString, at: i },
    }
}

/// The end of the character literal of value `value` that opens at offset
/// `i`: the closing quote is due at offset `at`.
pub open spec fn close_character(src: Seq<u8>, i: int, at: int, value: u8) -> Scan {
    match byte_at(src, at) {
        None => Scan::Failure { error: LexErrorKind::UnexpectedEof, at: i },
        Some(b) => if b == APOSTROPHE {
            Scan::Token { kind: KindView::Literal(LiteralView::Char(value as char)), end: at + 1 }
        } else {
            Scan::Failure { error: LexErrorKind::UnterminatedChar, at }
        },
    }
}

/// A character literal, whose opening quote stands at offset `i`: one byte
/// or one escape pair, and the closing quote. A literal that the end of
/// the input cuts short is reported at its opening quote, an unknown escape
/// at the byte after the backslash, a missing closing quote at the byte
/// found in its place.
pub open spec fn scan_character(src: Seq<u8>, i: int) -> Scan {
    match byte_at(src, i + 1) {
        None => Scan::Failure { error: LexErrorKind::UnexpectedEof, at: i },
        Some(b) => if b != BACKSLASH {
            close_character(src, i, i + 2, b)
        } else {
            match byte_at(src, i + 2) {
                None => Scan::Failure { error: LexErrorKind::UnexpectedEof, at: i },
                Some(code) => if is_char_escape(code) {
                    close_character(src, i, i + 3, unescape(code))
                } else {
                    Scan::Failure { error: LexErrorKind::InvalidEscape, at: i + 2 }
                },
            }
        },
    }
}

/// A symbol: the longest one that is written at offset `i`.
pub open spec fn scan_symbol(src: Seq<u8>, i: int) -> Scan {
    let width = symbol_width(src, i);
    match symbol_of(src.subrange(i, i + width)) {
        Some(symbol) => Scan::Token { kind: KindView::Symbol(symbol), end: i + width },
        None => Scan::Failure { error: LexErrorKind::UnrecognizedCharacter, at: i },
    }
}

/// The token that starts at offset `i` of `src`, chosen by the byte found
/// there: a letter or underscore starts a word, a digit a number, a double
/// quote a string, a single quote a character, anything else a symbol.
pub open spec fn scan_token(src: Seq<u8>, i: int) -> Scan {
    let b = src[i];
    if is_word_start(b) {
        scan_word(src, i)
    } else if is_digit(b) {
        scan_number(src, i)
    } else if b == QUOTE {
        scan_string(src, i)
    } else if b == APOSTROPHE {
        scan_character(src, i)
    } else {
        scan_symbol(src, i)
    }
}

/// A token with the span of source bytes that it was read from.
pub struct Lexeme {
    pub start: int,
    pub end: int,
    pub kind: KindView,
}

impl Lexeme {
    /// The token of this lexeme: its kind, at the position of its first byte.
    pub open spec fn token(self, src: Seq<u8>) -> TokenView {
        TokenView { pos: position_at(src, self.start), kind: self.kind }
    }
}

/// The tokens of a sequence of lexemes.
pub open spec fn tokens_of(src: Seq<u8>, lexemes: Seq<Lexeme>) -> Seq<TokenView> {
    Seq::new(lexemes.len(), |k: int| lexemes[k].token(src))
}

/// Whether `token` is an identifier whose name is a reserved word.
pub open spec fn is_reserved_name(token: TokenView) -> bool {
    token.kind matches KindView::Identifier(name) && keyword_of(name) is Some
}

/// The result of a lexing pass.
pub struct Outcome {
    /// The lexemes that were read, in source order.
    pub lexemes: Seq<Lexeme>,
    /// The offset at which the pass stopped: the end of the source, or the
    /// first byte of the token that could not be read.
    pub stop: int,
    /// Why the pass stopped early, if it did.
    pub error: Option<LexError>,
}

/// Lexes `src` from offset `i` on: whitespace is skipped, each token is
/// read where the last one ended, and the first failure ends the pass.
pub open spec fn lex_from(src: Seq<u8>, i: int) -> Outcome
    decreases src.len() - i,
    via lex_from_decreases
{
    if i < 0 || i >= src.len() {
        Outcome { lexemes: Seq::empty(), stop: i, error: None }
    } else if is_whitespace(src[i]) {
        lex_from(src, i + 1)
    } else {
        match scan_token(src, i) {
            Scan::Token { kind, end } => {
                let rest = lex_from(src, end);
                Outcome {
                    lexemes: seq![Lexeme { start: i, end, kind }] + rest.lexemes,
                    stop: rest.stop,
                    error: rest.error,
                }
            },
            Scan::Failure { error, at } => Outcome {
                lexemes: Seq::empty(),
                stop: i,
                error: Some(error_at(src, error, at)),
            },
        }
    }
}

#[via_fn]
proof fn lex_from_decreases(src: Seq<u8>, i: int) {
    if 0 <= i < src.len() {
        lemma_scan_token_bounds(src, i);
    }
}

/// Every token holds at least one byte and ends inside the source; every
/// failure points at a byte of the source, at or after the offset that was
/// read from.
pub proof fn lemma_scan_token_bounds(src: Seq<u8>, i: int)
    requires
        0 <= i < src.len(),
    ensures
        scan_token(src, i) matches Scan::Token { end, .. } ==> i < end <= src.len(),
        scan_token(src, i) matches Scan::Failure { at, .. } ==> i <= at < src.len(),
{
    let b = src[i];
    if is_word_start(b) {
        lemma_run_end(src, i + 1, ByteClass::Word);
    } else if is_digit(b) {
        lemma_run_end(src, i + 1, ByteClass::Number);
    } else if b == QUOTE {
        lemma_string_end_bounds(src, i + 1);
    }
}

} // verus!
