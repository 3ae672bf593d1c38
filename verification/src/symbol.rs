//! The table of punctuation and operators.

use crate::token::Symbol;
use vstd::prelude::*;

verus! {

/// The symbol that is written as the single byte `a`.
pub open spec fn one_byte_symbol(a: u8) -> Option<Symbol> {
    if a == ':' as u8 {
        Some(Symbol::Colon)
    } else if a == ';' as u8 {
        Some(Symbol::SemiColon)
    } else if a == '{' as u8 {
        Some(Symbol::LeftBrace)
    } else if a == '}' as u8 {
        Some(Symbol::RightBrace)
    } else if a == '(' as u8 {
        Some(Symbol::LeftParam)
    } else if a == ')' as u8 {
        Some(Symbol::RightParam)
    } else if a == '[' as u8 {
        Some(Symbol::LeftSquareBracket)
    } else if a == ']' as u8 {
        Some(Symbol::RightSquareBracket)
    } else if a == '+' as u8 {
        Some(Symbol::Plus)
    } else if a == '-' as u8 {
        Some(Symbol::Minus)
    } else if a == '*' as u8 {
        Some(Symbol::Star)
    } else if a == '/' as u8 {
        Some(Symbol::Slash)
    } else if a == '|' as u8 {
        Some(Symbol::Pipe)
    } else if a == '&' as u8 {
        Some(Symbol::Ampersand)
    } else if a == '^' as u8 {
        Some(Symbol::Caret)
    } else if a == '<' as u8 {
        Some(Symbol::LessThan)
    } else if a == '>' as u8 {
        Some(Symbol::GreaterThan)
    } else if a == '!' as u8 {
        Some(Symbol::Bang)
    } else if a == '.' as u8 {
        Some(Symbol::Dot)
    } else if a == '\\' as u8 {
        Some(Symbol::BackSlash)
    } else if a == ',' as u8 {
        Some(Symbol::Comma)
    } else if a == '=' as u8 {
        Some(Symbol::Equal)
    } else {
        None
    }
}

/// The symbol that is written as the two bytes `a`, `b`.
pub open spec fn two_byte_symbol(a: u8, b: u8) -> Option<Symbol> {
    if a == ':' as u8 && b == ':' as u8 {
        Some(Symbol::DoubleColon)
    } else if a == '+' as u8 && b == '=' as u8 {
        Some(Symbol::PlusEqual)
    } else if a == '-' as u8 && b == '=' as u8 {
        Some(Symbol::MinusEqual)
    } else if a == '-' as u8 && b == '>' as u8 {
        Some(Symbol::Arrow)
    } else if a == '*' as u8 && b == '=' as u8 {
        Some(Symbol::StarEqual)
    } else if a == '/' as u8 && b == '=' as u8 {
        Some(Symbol::SlashEqual)
    } else if a == '>' as u8 && b == '=' as u8 {
        Some(Symbol::GreaterThanEqual)
    } else if a == '>' as u8 && b == '>' as u8 {
        Some(Symbol::Shr)
    } else if a == '<' as u8 && b == '=' as u8 {
        Some(Symbol::LessThanEqual)
    } else if a == '<' as u8 && b == '<' as u8 {
        Some(Symbol::Shl)
    } else if a == '|' as u8 && b == '|' as u8 {
        Some(Symbol::DoublePipe)
    } else if a == '|' as u8 && b == '=' as u8 {
        Some(Symbol::PipeEqual)
    } else if a == '&' as u8 && b == '&' as u8 {
        Some(Symbol::DoubleAmpersand)
    } else if a == '&' as u8 && b == '=' as u8 {
        Some(Symbol::AmpersandEqual)
    } else if a == '^' as u8 && b == '=' as u8 {
        Some(Symbol::CaretEqual)
    } else if a == '=' as u8 && b == '=' as u8 {
        Some(Symbol::DoubleEqual)
    } else if a == '=' as u8 && b == '>' as u8 {
        Some(Symbol::FatArrow)
    } else if a == '!' as u8 && b == '=' as u8 {
        Some(Symbol::BangEqual)
    } else {
        None
    }
}

/// The symbol that is written as the three bytes `a`, `b`, `c`.
pub open spec fn three_byte_symbol(a: u8, b: u8, c: u8) -> Option<Symbol> {
    if a == '>' as u8 && b == '>' as u8 && c == '=' as u8 {
        Some(Symbol::ShrEqual)
    } else if a == '<' as u8 && b == '<' as u8 && c == '=' as u8 {
        Some(Symbol::ShlEqual)
    } else {
        None
    }
}

/// The symbol that `text` spells, if it spells one.
pub open spec fn symbol_of(text: Seq<u8>) -> Option<Symbol> {
    if text.len() == 1 {
        one_byte_symbol(text[0])
    } else if text.len() == 2 {
        two_byte_symbol(text[0], text[1])
    } else if text.len() == 3 {
        three_byte_symbol(text[0], text[1], text[2])
    } else {
        None
    }
}

/// Whether the `width` bytes of `src` from offset `i` on spell a symbol.
pub open spec fn spells_symbol(src: Seq<u8>, i: int, width: int) -> bool {
    0 <= i && 0 < width && i + width <= src.len() && symbol_of(src.subrange(i, i + width)) is Some
}

/// The number of bytes of the longest symbol written at offset `i` of `src`,
/// or 0 when no symbol is written there.
pub open spec fn symbol_width(src: Seq<u8>, i: int) -> int {
    if spells_symbol(src, i, 3) {
        3
    } else if spells_symbol(src, i, 2) {
        2
    } else if spells_symbol(src, i, 1) {
        1
    } else {
        0
    }
}

impl Symbol {
    /// The symbol as it is written in source text.
    pub open spec fn spelling(self) -> Seq<u8> {
        match self {
            Symbol::Colon => seq![':' as u8],
            Symbol::DoubleColon => seq![':' as u8, ':' as u8],
            Symbol::SemiColon => seq![';' as u8],
            Symbol::LeftBrace => seq!['{' as u8],
            Symbol::RightBrace => seq!['}' as u8],
            Symbol::LeftParam => seq!['(' as u8],
            Symbol::RightParam => seq![')' as u8],
            Symbol::LeftSquareBracket => seq!['[' as u8],
            Symbol::RightSquareBracket => seq![']' as u8],
            Symbol::Plus => seq!['+' as u8],
            Symbol::Minus => seq!['-' as u8],
            Symbol::Star => seq!['*' as u8],
            Symbol::Slash => seq!['/' as u8],
            Symbol::PlusEqual => seq!['+' as u8, '=' as u8],
            Symbol::MinusEqual => seq!['-' as u8, '=' as u8],
            Symbol::StarEqual => seq!['*' as u8, '=' as u8],
            Symbol::SlashEqual => seq!['/' as u8, '=' as u8],
            Symbol::Pipe => seq!['|' as u8],
            Symbol::DoublePipe => seq!['|' as u8, '|' as u8],
            Symbol::Ampersand => seq!['&' as u8],
            Symbol::DoubleAmpersand => seq!['&' as u8, '&' as u8],
            Symbol::Caret => seq!['^' as u8],
            Symbol::CaretEqual => seq!['^' as u8, '=' as u8],
            Symbol::PipeEqual => seq!['|' as u8, '=' as u8],
            Symbol::AmpersandEqual => seq!['&' as u8, '=' as u8],
            Symbol::LessThan => seq!['<' as u8],
            Symbol::GreaterThan => seq!['>' as u8],
            Symbol::LessThanEqual => seq!['<' as u8, '=' as u8],
            Symbol::GreaterThanEqual => seq!['>' as u8, '=' as u8],
            Symbol::Shr => seq!['>' as u8, '>' as u8],
            Symbol::Shl => seq!['<' as u8, '<' as u8],
            Symbol::ShrEqual => seq!['>' as u8, '>' as u8, '=' as u8],
            Symbol::ShlEqual => seq!['<' as u8, '<' as u8, '=' as u8],
            Symbol::Bang => seq!['!' as u8],
            Symbol::BangEqual => seq!['!' as u8, '=' as u8],
            Symbol::Dot => seq!['.' as u8],
            Symbol::BackSlash => seq!['\\' as u8],
            Symbol::Comma => seq![',' as u8],
            Symbol::DoubleEqual => seq!['=' as u8, '=' as u8],
            Symbol::Equal => seq!['=' as u8],
            Symbol::Arrow => seq!['-' as u8, '>' as u8],
            Symbol::FatArrow => seq!['=' as u8, '>' as u8],
        }
    }
}

/// Every symbol is found in the table under its own spelling.
pub proof fn lemma_symbol_of_spelling(symbol: Symbol)
    ensures
        symbol_of(symbol.spelling()) == Some(symbol),
{
}

/// A text that spells a symbol is that symbol's spelling.
pub proof fn lemma_spelling_of_symbol(text: Seq<u8>)
    requires
        symbol_of(text) is Some,
    ensures
        symbol_of(text).unwrap().spelling() == text,
{
    assert(symbol_of(text).unwrap().spelling() =~= text);
}

} // verus!
