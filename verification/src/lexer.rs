//! The executable lexer: a cursor over the source buffer, the scanners that
//! read one token each, and the loop that drives them.

use crate::classify::{
    byte_at, is_digit, is_whitespace, is_word_start, lemma_run_end, scan_run,
    whitespace_between, ByteClass, APOSTROPHE, BACKSLASH, NEWLINE, QUOTE,
};
use crate::error::{LexError, LexErrorKind};
use crate::escape::{
    decode_body, has_escape, is_char_escape, is_string_escape, lemma_decode_plain,
    lemma_has_escape_split, string_end, unescape,
};
use crate::grammar::{
    error_at, is_reserved_name, lemma_scan_token_bounds, lex_from, scan_character, scan_number,
    scan_string, scan_symbol, scan_word, tokens_of, Lexeme, Scan,
};
use crate::keyword::lookup_keyword;
use crate::laws::{law_identifier_is_not_reserved, law_whitespace_has_no_tokens};
use crate::number::{is_float, parse_integer};
use crate::position::{
    col_at, lemma_position_bounds, lemma_position_within_line, line_at, position_at,
};
use crate::token::{Ident, Kind, Literal, Position, Symbol, Token, TokenView};
use std::borrow::Cow;
use vstd::prelude::*;
use vstd::slice::slice_subrange;

verus! {

/// The source buffer with the offset of the next unread byte and the place
/// of that offset in its line. Both counts start at 0, so that they fit
/// wherever the offset does; a position is made of them only for an offset
/// that holds a byte.
#[derive(Clone, Copy)]
struct Cursor<'a> {
    input: &'a [u8],
    offset: usize,
    /// The number of line feeds before `offset`.
    lines: usize,
    /// The number of bytes between the start of the line and `offset`.
    cols: usize,
}

impl<'a> Cursor<'a> {
    #[verifier::type_invariant]
    spec fn well_formed(self) -> bool {
        &&& self.offset <= self.input@.len()
        &&& self.lines + 1 == line_at(self.input@, self.offset as int)
        &&& self.cols + 1 == col_at(self.input@, self.offset as int)
    }

    fn new(input: &'a [u8]) -> (r: Self)
        ensures
            r.input == input,
            r.offset == 0,
    {
        Cursor { input, offset: 0, lines: 0, cols: 0 }
    }

    /// The position of the next unread byte.
    fn position(&self) -> (r: Position)
        requires
            self.offset < self.input@.len(),
        ensures
            r == position_at(self.input@, self.offset as int),
    {
        proof {
            use_type_invariant(self);
            lemma_position_bounds(self.input@, self.offset as int);
            assert(self.input@.len() == self.input.len());
        }
        Position { line: self.lines + 1, col: self.cols + 1 }
    }

    /// The byte `ahead` places after the next unread byte.
    fn peek_at(&self, ahead: usize) -> (r: Option<u8>)
        ensures
            r == byte_at(self.input@, self.offset + ahead),
            self.offset <= self.input@.len(),
    {
        proof {
            use_type_invariant(self);
        }
        if ahead < self.input.len() - self.offset {
            Some(self.input[self.offset + ahead])
        } else {
            None
        }
    }

    /// Consumes one byte: a line feed ends the line, any other byte makes
    /// it one longer.
    fn bump(&mut self)
        requires
            old(self).offset < old(self).input@.len(),
        ensures
            final(self).input == old(self).input,
            final(self).offset == old(self).offset + 1,
    {
        proof {
            use_type_invariant(&*self);
            lemma_position_bounds(self.input@, self.offset + 1);
        }
        if self.input[self.offset] == NEWLINE {
            *self = Cursor {
                input: self.input,
                offset: self.offset + 1,
                lines: self.lines + 1,
                cols: 0,
            };
        } else {
            *self = Cursor {
                input: self.input,
                offset: self.offset + 1,
                lines: self.lines,
                cols: self.cols + 1,
            };
        }
    }

    /// Consumes `by` bytes, none of which is a line feed.
    fn advance(&mut self, by: usize)
        requires
            old(self).offset + by <= old(self).input@.len(),
            forall|k: int|
                old(self).offset <= k < old(self).offset + by ==> #[trigger] old(self).input@[k]
                    != NEWLINE,
        ensures
            final(self).input == old(self).input,
            final(self).offset == old(self).offset + by,
    {
        proof {
            use_type_invariant(&*self);
            lemma_position_within_line(self.input@, self.offset as int, self.offset + by);
            lemma_position_bounds(self.input@, self.offset + by);
            assert(self.input@.len() == self.input.len());
        }
        *self = Cursor {
            input: self.input,
            offset: self.offset + by,
            lines: self.lines,
            cols: self.cols + by,
        };
    }
}

/// A lexer over one source buffer. It is made once per buffer, run with
/// [`Lexer::lex`], and gives up its tokens with [`Lexer::get_tokens`].
pub struct Lexer<'a> {
    cursor: Cursor<'a>,
    tokens: Vec<Token<'a>>,
}

impl<'a> Lexer<'a> {
    /// The bytes of the source buffer.
    pub closed spec fn source(&self) -> Seq<u8> {
        self.cursor.input@
    }

    /// The offset of the next unread byte.
    pub closed spec fn offset(&self) -> int {
        self.cursor.offset as int
    }

    /// The tokens read so far.
    pub closed spec fn tokens(&self) -> Seq<TokenView> {
        self.tokens.deep_view()
    }

    /// Whether this state and `r` are what reading one token in the state
    /// `before` gives, `scan` being what the grammar finds there. A token
    /// moves the cursor to its end; a failure leaves the cursor in place.
    /// The tokens already read stay as they are.
    closed spec fn follows(
        &self,
        before: &Self,
        r: Result<Token<'a>, LexError>,
        scan: Scan,
    ) -> bool {
        &&& self.source() == before.source()
        &&& self.tokens == before.tokens
        &&& match scan {
            Scan::Token { kind, end } => {
                &&& r matches Ok(token)
                &&& token@ == (TokenView {
                    pos: position_at(before.source(), before.offset()),
                    kind,
                })
                &&& self.offset() == end
            },
            Scan::Failure { error, at } => {
                &&& r matches Err(e)
                &&& e == error_at(before.source(), error, at)
                &&& self.offset() == before.offset()
            },
        }
    }

    /// A lexer at the start of `input`, with no tokens.
    pub fn new(input: &'a [u8]) -> (r: Self)
        ensures
            r.source() == input@,
            r.offset() == 0,
            r.tokens() == Seq::<TokenView>::empty(),
    {
        let r = Lexer { cursor: Cursor::new(input), tokens: Vec::new() };
        assert(r.tokens.deep_view() =~= Seq::<TokenView>::empty());
        r
    }

    /// Gives up the tokens read so far, in source order.
    pub fn get_tokens(self) -> (r: Vec<Token<'a>>)
        ensures
            r.deep_view() == self.tokens(),
    {
        self.tokens
    }

    /// Lexes the rest of the source: skips whitespace, reads token after
    /// token and appends each to the tokens read so far. The first token
    /// that cannot be read ends the pass: its error is returned, the tokens
    /// before it are kept, and the cursor stays at its first byte.
    pub fn lex(&mut self) -> (r: Result<(), LexError>)
        ensures
            final(self).source() == old(self).source(),
            final(self).tokens() == old(self).tokens() + tokens_of(
                old(self).source(),
                lex_from(old(self).source(), old(self).offset()).lexemes,
            ),
            final(self).offset() == lex_from(old(self).source(), old(self).offset()).stop,
            r == match lex_from(old(self).source(), old(self).offset()).error {
                Some(e) => Err::<(), LexError>(e),
                None => Ok::<(), LexError>(()),
            },
            whitespace_between(
                old(self).source(),
                old(self).offset(),
                old(self).source().len() as int,
            ) ==> r is Ok && final(self).tokens() == old(self).tokens(),
            forall|n: int|
                old(self).tokens().len() <= n < final(self).tokens().len() ==> !is_reserved_name(
                    #[trigger] final(self).tokens()[n],
                ),
    {
        let ghost src = self.source();
        let ghost whole = lex_from(src, self.offset());
        let ghost before = self.tokens();
        let ghost mut done: Seq<Lexeme> = Seq::empty();
        proof {
            assert(before + tokens_of(src, done) =~= before);
        }
        loop
            invariant
                src == old(self).source(),
                whole == lex_from(src, old(self).offset()),
                before == old(self).tokens(),
                self.source() == src,
                self.tokens() == before + tokens_of(src, done),
                whole.lexemes == done + lex_from(src, self.offset()).lexemes,
                whole.stop == lex_from(src, self.offset()).stop,
                whole.error == lex_from(src, self.offset()).error,
            decreases src.len() - self.offset(),
        {
            let ch: u8 = match self.peek() {
                Some(ch) => ch,
                None => {
                    proof {
                        assert(done + Seq::<Lexeme>::empty() =~= done);
                        lemma_pass(src, old(self).offset(), before);
                    }
                    return Ok(());
                },
            };
            let ghost start = self.offset();
            if is_whitespace(ch) {
                self.cursor.bump();
            } else {
                proof {
                    lemma_scan_token_bounds(src, start);
                }
                let result = if is_word_start(ch) {
                    self.lex_word()
                } else if is_digit(ch) {
                    self.lex_number()
                } else if ch == QUOTE {
                    self.lex_string()
                } else if ch == APOSTROPHE {
                    self.lex_character()
                } else {
                    self.try_lex_symbol()
                };
                match result {
                    Ok(token) => {
                        let ghost lexeme = Lexeme {
                            start,
                            end: self.offset(),
                            kind: token@.kind,
                        };
                        let ghost rest = lex_from(src, self.offset()).lexemes;
                        let ghost read = self.tokens();
                        self.tokens.push(token);
                        proof {
                            assert(done.push(lexeme) + rest =~= done + (seq![lexeme] + rest));
                            assert(self.tokens() =~= read.push(lexeme.token(src)));
                            assert(tokens_of(src, done.push(lexeme)) =~= tokens_of(src, done).push(
                                lexeme.token(src),
                            ));
                            assert(read.push(lexeme.token(src)) =~= before + tokens_of(
                                src,
                                done.push(lexeme),
                            ));
                            done = done.push(lexeme);
                        }
                    },
                    Err(e) => {
                        proof {
                            assert(done + Seq::<Lexeme>::empty() =~= done);
                            lemma_pass(src, old(self).offset(), before);
                        }
                        return Err(e);
                    },
                }
            }
        }
    }

    /// Reads a word, which is a keyword or an identifier. It cannot fail.
    /// The cursor stands before the end of the input.
    fn lex_word(&mut self) -> (r: Result<Token<'a>, LexError>)
        requires
            old(self).offset() < old(self).source().len(),
        ensures
            final(self).follows(
                old(self),
                r,
                scan_word(old(self).source(), old(self).offset()),
            ),
            r is Ok,
    {
        let input = self.cursor.input;
        let start: usize = self.cursor.offset;
        let pos = self.cursor.position();
        let end: usize = scan_run(input, start, ByteClass::Word);
        let word = slice_subrange(input, start, end);
        proof {
            lemma_run_end(input@, start as int, ByteClass::Word);
        }
        self.cursor.advance(end - start);
        let kind = match lookup_keyword(word) {
            Some(keyword) => Kind::Keyword(keyword),
            None => Kind::Identifier(Ident::new(word)),
        };
        Ok(Token::new(pos, kind))
    }

    /// Reads a number, which is an integer or a decimal float. The cursor
    /// stands before the end of the input.
    fn lex_number(&mut self) -> (r: Result<Token<'a>, LexError>)
        requires
            old(self).offset() < old(self).source().len(),
        ensures
            final(self).follows(
                old(self),
                r,
                scan_number(old(self).source(), old(self).offset()),
            ),
    {
        let input = self.cursor.input;
        let start: usize = self.cursor.offset;
        let pos = self.cursor.position();
        let end: usize = scan_run(input, start, ByteClass::Number);
        let text = slice_subrange(input, start, end);
        let kind = if let Some(n) = parse_integer(text) {
            Kind::Literal(Literal::Int(n))
        } else if is_float(text) {
            Kind::Literal(Literal::Float(text))
        } else {
            return Err(LexError { kind: LexErrorKind::InvalidNumber, byte: input[start], pos });
        };
        proof {
            lemma_run_end(input@, start as int, ByteClass::Number);
        }
        self.cursor.advance(end - start);
        Ok(Token::new(pos, kind))
    }

    /// Reads a string literal. The cursor stands at its opening quote.
    fn lex_string(&mut self) -> (r: Result<Token<'a>, LexError>)
        requires
            byte_at(old(self).source(), old(self).offset()) == Some(QUOTE),
        ensures
            final(self).follows(
                old(self),
                r,
                scan_string(old(self).source(), old(self).offset()),
            ),
    {
        let input = self.cursor.input;
        let len: usize = input.len();
        let start: usize = self.cursor.offset;
        let pos = self.cursor.position();
        let unterminated = LexError {
            kind: LexErrorKind::UnterminatedString,
            byte: QUOTE,
            pos,
        };
        let mut probe = self.cursor;
        probe.bump();
        let mut escaped = false;
        while probe.offset < len && input[probe.offset] != QUOTE
            invariant
                *self == *old(self),
                input == self.cursor.input,
                probe.input == input,
                len == input@.len(),
                start == self.cursor.offset,
                start < probe.offset <= len,
                unterminated == error_at(input@, LexErrorKind::UnterminatedString, start as int),
                string_end(input@, start + 1) == string_end(input@, probe.offset as int),
                escaped == has_escape(input@.subrange(start + 1, probe.offset as int)),
            decreases len - probe.offset,
        {
            let at: usize = probe.offset;
            if input[at] == BACKSLASH {
                if at + 1 >= len {
                    return Err(unterminated);
                }
                let code: u8 = input[at + 1];
                probe.bump();
                if !is_string_escape(code) {
                    return Err(
                        LexError {
                            kind: LexErrorKind::InvalidEscape,
                            byte: code,
                            pos: probe.position(),
                        },
                    );
                }
                probe.bump();
                escaped = true;
                proof {
                    lemma_has_escape_split(input@, start + 1, at as int, at + 2);
                    assert(input@.subrange(at as int, at + 2)[0] == BACKSLASH);
                }
            } else {
                probe.bump();
                proof {
                    lemma_has_escape_split(input@, start + 1, at as int, at + 1);
                    let last = input@.subrange(at as int, at + 1);
                    assert(forall|k: int| 0 <= k < last.len() ==> last[k] != BACKSLASH);
                }
            }
        }
        if probe.offset >= len {
            return Err(unterminated);
        }
        let body = slice_subrange(input, start + 1, probe.offset);
        let text = if escaped {
            Cow::Owned(decode_body(body))
        } else {
            proof {
                lemma_decode_plain(body@, 0);
                assert(body@.skip(0) =~= body@);
            }
            Cow::Borrowed(body)
        };
        probe.bump();
        self.cursor = probe;
        Ok(Token::new(pos, Kind::Literal(Literal::String(text))))
    }

    /// Reads a character literal. The cursor stands at its opening quote.
    fn lex_character(&mut self) -> (r: Result<Token<'a>, LexError>)
        requires
            byte_at(old(self).source(), old(self).offset()) == Some(APOSTROPHE),
        ensures
            final(self).follows(
                old(self),
                r,
                scan_character(old(self).source(), old(self).offset()),
            ),
    {
        let pos = self.cursor.position();
        let cut_short = LexError { kind: LexErrorKind::UnexpectedEof, byte: APOSTROPHE, pos };
        let mut probe = self.cursor;
        probe.bump();
        let first: u8 = match probe.peek_at(0) {
            Some(b) => b,
            None => {
                return Err(cut_short);
            },
        };
        probe.bump();
        let value: u8 = if first == BACKSLASH {
            let code: u8 = match probe.peek_at(0) {
                Some(b) => b,
                None => {
                    return Err(cut_short);
                },
            };
            if !is_char_escape(code) {
                return Err(
                    LexError {
                        kind: LexErrorKind::InvalidEscape,
                        byte: code,
                        pos: probe.position(),
                    },
                );
            }
            probe.bump();
            unescape(code)
        } else {
            first
        };
        let close: u8 = match probe.peek_at(0) {
            Some(b) => b,
            None => {
                return Err(cut_short);
            },
        };
        if close != APOSTROPHE {
            return Err(
                LexError {
                    kind: LexErrorKind::UnterminatedChar,
                    byte: close,
                    pos: probe.position(),
                },
            );
        }
        probe.bump();
        self.cursor = probe;
        Ok(Token::new(pos, Kind::Literal(Literal::Char(value as char))))
    }

    /// Reads a symbol: the longest one that the next bytes spell. The cursor
    /// stands before the end of the input.
    fn try_lex_symbol(&mut self) -> (r: Result<Token<'a>, LexError>)
        requires
            old(self).offset() < old(self).source().len(),
        ensures
            final(self).follows(
                old(self),
                r,
                scan_symbol(old(self).source(), old(self).offset()),
            ),
    {
        let pos = self.cursor.position();
        let ch: u8 = self.cursor.input[self.cursor.offset];
        let (symbol, width) = if ch == '[' as u8 {
            (Symbol::LeftSquareBracket, 1usize)
        } else if ch == ']' as u8 {
            (Symbol::RightSquareBracket, 1usize)
        } else if ch == '(' as u8 {
            (Symbol::LeftParam, 1usize)
        } else if ch == ')' as u8 {
            (Symbol::RightParam, 1usize)
        } else if ch == '{' as u8 {
            (Symbol::LeftBrace, 1usize)
        } else if ch == '}' as u8 {
            (Symbol::RightBrace, 1usize)
        } else if ch == ';' as u8 {
            (Symbol::SemiColon, 1usize)
        } else if ch == '.' as u8 {
            (Symbol::Dot, 1usize)
        } else if ch == ',' as u8 {
            (Symbol::Comma, 1usize)
        } else if ch == '\\' as u8 {
            (Symbol::BackSlash, 1usize)
        } else if ch == ':' as u8 {
            if is_byte(self.peek_next(), ':' as u8) {
                (Symbol::DoubleColon, 2usize)
            } else {
                (Symbol::Colon, 1usize)
            }
        } else if ch == '+' as u8 {
            if is_byte(self.peek_next(), '=' as u8) {
                (Symbol::PlusEqual, 2usize)
            } else {
                (Symbol::Plus, 1usize)
            }
        } else if ch == '-' as u8 {
            if is_byte(self.peek_next(), '=' as u8) {
                (Symbol::MinusEqual, 2usize)
            } else if is_byte(self.peek_next(), '>' as u8) {
                (Symbol::Arrow, 2usize)
            } else {
                (Symbol::Minus, 1usize)
            }
        } else if ch == '*' as u8 {
            if is_byte(self.peek_next(), '=' as u8) {
                (Symbol::StarEqual, 2usize)
            } else {
                (Symbol::Star, 1usize)
            }
        } else if ch == '/' as u8 {
            if is_byte(self.peek_next(), '=' as u8) {
                (Symbol::SlashEqual, 2usize)
            } else {
                (Symbol::Slash, 1usize)
            }
        } else if ch == '>' as u8 {
            if is_byte(self.peek_next(), '=' as u8) {
                (Symbol::GreaterThanEqual, 2usize)
            } else if is_byte(self.peek_next(), '>' as u8) {
                if is_byte(self.cursor.peek_at(2), '=' as u8) {
                    (Symbol::ShrEqual, 3usize)
                } else {
                    (Symbol::Shr, 2usize)
                }
            } else {
                (Symbol::GreaterThan, 1usize)
            }
        } else if ch == '<' as u8 {
            if is_byte(self.peek_next(), '=' as u8) {
                (Symbol::LessThanEqual, 2usize)
            } else if is_byte(self.peek_next(), '<' as u8) {
                if is_byte(self.cursor.peek_at(2), '=' as u8) {
                    (Symbol::ShlEqual, 3usize)
                } else {
                    (Symbol::Shl, 2usize)
                }
            } else {
                (Symbol::LessThan, 1usize)
            }
        } else if ch == '|' as u8 {
            if is_byte(self.peek_next(), '|' as u8) {
                (Symbol::DoublePipe, 2usize)
            } else if is_byte(self.peek_next(), '=' as u8) {
                (Symbol::PipeEqual, 2usize)
            } else {
                (Symbol::Pipe, 1usize)
            }
        } else if ch == '&' as u8 {
            if is_byte(self.peek_next(), '&' as u8) {
                (Symbol::DoubleAmpersand, 2usize)
            } else if is_byte(self.peek_next(), '=' as u8) {
                (Symbol::AmpersandEqual, 2usize)
            } else {
                (Symbol::Ampersand, 1usize)
            }
        } else if ch == '^' as u8 {
            if is_byte(self.peek_next(), '=' as u8) {
                (Symbol::CaretEqual, 2usize)
            } else {
                (Symbol::Caret, 1usize)
            }
        } else if ch == '=' as u8 {
            if is_byte(self.peek_next(), '=' as u8) {
                (Symbol::DoubleEqual, 2usize)
            } else if is_byte(self.peek_next(), '>' as u8) {
                (Symbol::FatArrow, 2usize)
            } else {
                (Symbol::Equal, 1usize)
            }
        } else if ch == '!' as u8 {
            if is_byte(self.peek_next(), '=' as u8) {
                (Symbol::BangEqual, 2usize)
            } else {
                (Symbol::Bang, 1usize)
            }
        } else {
            return Err(LexError { kind: LexErrorKind::UnrecognizedCharacter, byte: ch, pos });
        };
        self.cursor.advance(width);
        Ok(Token::new(pos, Kind::Symbol(symbol)))
    }

    /// The next unread byte.
    fn peek(&self) -> (r: Option<u8>)
        ensures
            r == byte_at(self.source(), self.offset()),
            self.offset() <= self.source().len(),
    {
        self.cursor.peek_at(0)
    }

    /// The byte after the next unread byte.
    fn peek_next(&self) -> (r: Option<u8>)
        ensures
            r == byte_at(self.source(), self.offset() + 1),
    {
        self.cursor.peek_at(1)
    }
}

/// What follows for the tokens of a lexer from what a pass from offset `i`
/// adds to the tokens `before`: over nothing but whitespace it adds none,
/// and no identifier that it adds is a reserved word.
proof fn lemma_pass(src: Seq<u8>, i: int, before: Seq<TokenView>)
    requires
        0 <= i <= src.len(),
    ensures
        whitespace_between(src, i, src.len() as int) ==> lex_from(src, i).error is None && before
            + tokens_of(src, lex_from(src, i).lexemes) == before,
        forall|n: int|
            before.len() <= n < before.len() + lex_from(src, i).lexemes.len() ==> !is_reserved_name(
                #[trigger] (before + tokens_of(src, lex_from(src, i).lexemes))[n],
            ),
{
    let added = tokens_of(src, lex_from(src, i).lexemes);
    if whitespace_between(src, i, src.len() as int) {
        law_whitespace_has_no_tokens(src, i);
        assert(before + added =~= before);
    }
    assert forall|n: int| before.len() <= n < before.len() + added.len() implies !is_reserved_name(
        #[trigger] (before + added)[n],
    ) by {
        law_identifier_is_not_reserved(src, i, n - before.len());
    }
}

/// Whether `found` is the byte `b`.
fn is_byte(found: Option<u8>, b: u8) -> (r: bool)
    ensures
        r == (found == Some(b)),
{
    match found {
        Some(a) => a == b,
        None => false,
    }
}

} // verus!
