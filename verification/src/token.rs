//! The token data model and its mathematical views.

use std::borrow::Cow;
use vstd::prelude::*;

verus! {

/// A place in the source: line and column, both counted from 1.
#[derive(Clone, Copy, Debug, PartialEq, Eq)]
pub struct Position {
    pub line: usize,
    pub col: usize,
}

/// The reserved words of the language.
#[derive(Clone, Copy, Debug, PartialEq, Eq)]
pub enum Keyword {
    Import,
    Struct,
    Fn,
    Enum,
    Mod,
    Const,
    Let,
    If,
    Else,
    For,
    In,
    While,
    Return,
    Break,
    Continue,
    Print,
}

/// Punctuation and operators.
#[derive(Clone, Copy, Debug, PartialEq, Eq)]
pub enum Symbol {
    /// `:`
    Colon,
    /// `::`
    DoubleColon,
    /// `;`
    SemiColon,
    /// `{`
    LeftBrace,
    /// `}`
    RightBrace,
    /// `(`
    LeftParam,
    /// `)`
    RightParam,
    /// `[`
    LeftSquareBracket,
    /// `]`
    RightSquareBracket,
    /// `+`
    Plus,
    /// `-`
    Minus,
    /// `*`
    Star,
    /// `/`
    Slash,
    /// `+=`
    PlusEqual,
    /// `-=`
    MinusEqual,
    /// `*=`
    StarEqual,
    /// `/=`
    SlashEqual,
    /// `|`
    Pipe,
    /// `||`
    DoublePipe,
    /// `&`
    Ampersand,
    /// `&&`
    DoubleAmpersand,
    /// `^`
    Caret,
    /// `^=`
    CaretEqual,
    /// `|=`
    PipeEqual,
    /// `&=`
    AmpersandEqual,
    /// `<`
    LessThan,
    /// `>`
    GreaterThan,
    /// `<=`
    LessThanEqual,
    /// `>=`
    GreaterThanEqual,
    /// `>>`
    Shr,
    /// `<<`
    Shl,
    /// `>>=`
    ShrEqual,
    /// `<<=`
    ShlEqual,
    /// `!`
    Bang,
    /// `!=`
    BangEqual,
    /// `.`
    Dot,
    /// `\`
    BackSlash,
    /// `,`
    Comma,
    /// `==`
    DoubleEqual,
    /// `=`
    Equal,
    /// `->`
    Arrow,
    /// `=>`
    FatArrow,
}

/// A name. Its text is a slice of the source buffer.
#[derive(Debug, PartialEq, Eq)]
pub struct Ident<'a> {
    name: &'a [u8],
}

impl<'a> View for Ident<'a> {
    type V = Seq<u8>;

    closed spec fn view(&self) -> Seq<u8> {
        self.name@
    }
}

impl<'a> Ident<'a> {
    /// The identifier named `name`.
    pub(crate) fn new(name: &'a [u8]) -> (r: Self)
        ensures
            r@ == name@,
    {
        Ident { name }
    }

    /// The bytes of the name.
    pub fn name(&self) -> (r: &'a [u8])
        ensures
            r@ == self@,
    {
        self.name
    }
}

/// A literal value.
#[derive(Debug, PartialEq, Eq)]
pub enum Literal<'a> {
    /// A decimal integer that fits in 64 bits.
    Int(i64),
    /// A decimal number with a fraction, an exponent, or too many digits for
    /// `Int`. The variant holds the literal's text, which is a slice of the
    /// source and has the form that [`crate::number::is_decimal_float`]
    /// describes.
    Float(&'a [u8]),
    /// The decoded bytes of a string literal: a slice of the source when the
    /// literal has no escape sequence, a fresh buffer otherwise.
    String(Cow<'a, [u8]>),
    /// The value of a character literal.
    Char(char),
}

/// The mathematical value of a [`Literal`].
pub enum LiteralView {
    Int(i64),
    Float(Seq<u8>),
    String { value: Seq<u8>, borrowed: bool },
    Char(char),
}

impl<'a> View for Literal<'a> {
    type V = LiteralView;

    open spec fn view(&self) -> LiteralView {
        match self {
            Literal::Int(n) => LiteralView::Int(*n),
            Literal::Float(text) => LiteralView::Float(text@),
            Literal::String(Cow::Borrowed(bytes)) => LiteralView::String {
                value: bytes@,
                borrowed: true,
            },
            Literal::String(Cow::Owned(bytes)) => LiteralView::String {
                value: bytes@,
                borrowed: false,
            },
            Literal::Char(c) => LiteralView::Char(*c),
        }
    }
}

/// What a token is.
#[derive(Debug, PartialEq, Eq)]
pub enum Kind<'a> {
    Literal(Literal<'a>),
    Symbol(Symbol),
    Identifier(Ident<'a>),
    Keyword(Keyword),
}

/// The mathematical value of a [`Kind`].
pub enum KindView {
    Literal(LiteralView),
    Symbol(Symbol),
    Identifier(Seq<u8>),
    Keyword(Keyword),
}

impl<'a> View for Kind<'a> {
    type V = KindView;

    open spec fn view(&self) -> KindView {
        match self {
            Kind::Literal(literal) => KindView::Literal(literal@),
            Kind::Symbol(symbol) => KindView::Symbol(*symbol),
            Kind::Identifier(ident) => KindView::Identifier(ident@),
            Kind::Keyword(keyword) => KindView::Keyword(*keyword),
        }
    }
}

/// A lexical unit: what it is and where it starts.
#[derive(Debug, PartialEq, Eq)]
pub struct Token<'a> {
    pos: Position,
    kind: Kind<'a>,
}

/// The mathematical value of a [`Token`].
pub struct TokenView {
    pub pos: Position,
    pub kind: KindView,
}

impl<'a> View for Token<'a> {
    type V = TokenView;

    closed spec fn view(&self) -> TokenView {
        TokenView { pos: self.pos, kind: self.kind@ }
    }
}

impl<'a> DeepView for Token<'a> {
    type V = TokenView;

    open spec fn deep_view(&self) -> TokenView {
        self@
    }
}

impl<'a> Token<'a> {
    /// The token of kind `kind` that starts at `pos`.
    pub(crate) fn new(pos: Position, kind: Kind<'a>) -> (r: Self)
        ensures
            r@ == (TokenView { pos, kind: kind@ }),
    {
        Token { pos, kind }
    }

    /// Where the token starts.
    pub fn pos(&self) -> (r: Position)
        ensures
            r == self@.pos,
    {
        self.pos
    }

    /// What the token is.
    pub fn kind(&self) -> (r: &Kind<'a>)
        ensures
            r@ == self@.kind,
    {
        &self.kind
    }
}

} // verus!
