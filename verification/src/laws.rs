//! General facts about the grammar, proved once for every source buffer.

use crate::classify::{
    is_whitespace, is_word_start, lemma_run_end, run_end, whitespace_between, ByteClass,
    APOSTROPHE, BACKSLASH, QUOTE,
};
use crate::escape::{
    decode, has_escape, is_char_escape, lemma_decode_plain, lemma_string_end_bounds, unescape,
};
use crate::grammar::{
    error_at, lemma_scan_token_bounds, lex_from, scan_symbol, scan_token, tokens_of, Lexeme,
    Scan,
};
use crate::keyword::{keyword_of, lemma_keyword_of_spelling};
use crate::number::{integer_value, is_decimal_float};
use crate::position::{lemma_position_bounds, lemma_position_increases, precedes};
use crate::symbol::{
    lemma_spelling_of_symbol, lemma_symbol_of_spelling, spells_symbol, symbol_of, symbol_width,
};
use crate::token::{Keyword, KindView, LiteralView, Symbol, TokenView};
use vstd::prelude::*;

verus! {

/// A source that holds nothing but whitespace has no tokens: the pass
/// succeeds, reads to the end and finds none. The same holds of a pass that
/// starts at an offset after which there is nothing but whitespace.
pub proof fn law_whitespace_has_no_tokens(src: Seq<u8>, i: int)
    requires
        0 <= i <= src.len(),
        whitespace_between(src, i, src.len() as int),
    ensures
        lex_from(src, i).lexemes == Seq::<Lexeme>::empty(),
        tokens_of(src, lex_from(src, i).lexemes) == Seq::<TokenView>::empty(),
        lex_from(src, i).error is None,
        lex_from(src, i).stop == src.len(),
    decreases src.len() - i,
{
    if i < src.len() {
        law_whitespace_has_no_tokens(src, i + 1);
    }
    assert(tokens_of(src, lex_from(src, i).lexemes) =~= Seq::<TokenView>::empty());
}

/// The lexemes of a pass tile the source. Each one is the token that the
/// grammar reads at its first byte, holds at least one byte and starts with
/// a byte that is not whitespace. The first one follows the start of the
/// pass, every other one follows the one before it, and in between there
/// is nothing but whitespace: no byte belongs to two lexemes, and no byte
/// that is not whitespace is left out.
pub proof fn law_lexemes_tile_source(src: Seq<u8>, i: int, n: int)
    requires
        0 <= i,
        0 <= n < lex_from(src, i).lexemes.len(),
    ensures
        ({
            let lexemes = lex_from(src, i).lexemes;
            let lexeme = lexemes[n];
            let from = if n == 0 {
                i
            } else {
                lexemes[n - 1].end
            };
            &&& i <= from <= lexeme.start < lexeme.end <= src.len()
            &&& whitespace_between(src, from, lexeme.start)
            &&& !is_whitespace(src[lexeme.start])
            &&& scan_token(src, lexeme.start) == (Scan::Token {
                kind: lexeme.kind,
                end: lexeme.end,
            })
        }),
    decreases src.len() - i, n,
{
    if i < src.len() {
        if is_whitespace(src[i]) {
            law_lexemes_tile_source(src, i + 1, n);
        } else {
            lemma_scan_token_bounds(src, i);
            match scan_token(src, i) {
                Scan::Token { kind, end } => {
                    let rest = lex_from(src, end).lexemes;
                    let first = Lexeme { start: i, end, kind };
                    assert(lex_from(src, i).lexemes == seq![first] + rest);
                    if n > 0 {
                        law_lexemes_tile_source(src, end, n - 1);
                        assert((seq![first] + rest)[n] == rest[n - 1]);
                        if n > 1 {
                            assert((seq![first] + rest)[n - 1] == rest[n - 2]);
                        }
                    }
                },
                Scan::Failure { .. } => {},
            }
        }
    }
}

/// After the last lexeme of a pass, or after its start when it has none,
/// there is nothing but whitespace up to the place where the pass stops.
/// A pass without an error stops at the end of the source. A pass with one
/// stops at a byte that is not whitespace and at which the grammar reads
/// no token; its error is the one the grammar gives there, and points at a
/// byte of the source at or after that place.
pub proof fn law_pass_stops(src: Seq<u8>, i: int)
    requires
        0 <= i <= src.len(),
    ensures
        ({
            let out = lex_from(src, i);
            let from = if out.lexemes.len() == 0 {
                i
            } else {
                out.lexemes.last().end
            };
            &&& from <= out.stop <= src.len()
            &&& whitespace_between(src, from, out.stop)
            &&& out.error is None ==> out.stop == src.len()
            &&& out.error is Some ==> {
                &&& out.stop < src.len()
                &&& !is_whitespace(src[out.stop])
                &&& scan_token(src, out.stop) matches Scan::Failure { error, at }
                &&& out.stop <= at < src.len()
                &&& out.error == Some(error_at(src, error, at))
            }
        }),
    decreases src.len() - i,
{
    if i < src.len() {
        if is_whitespace(src[i]) {
            law_pass_stops(src, i + 1);
        } else {
            lemma_scan_token_bounds(src, i);
            match scan_token(src, i) {
                Scan::Token { kind, end } => {
                    let rest = lex_from(src, end).lexemes;
                    let first = Lexeme { start: i, end, kind };
                    assert(lex_from(src, i).lexemes == seq![first] + rest);
                    law_pass_stops(src, end);
                    if rest.len() > 0 {
                        assert((seq![first] + rest).last() == rest.last());
                    } else {
                        assert((seq![first] + rest).last() == first);
                    }
                },
                Scan::Failure { .. } => {},
            }
        }
    }
}

/// Lexemes come in source order: an earlier one ends before a later one
/// starts.
pub proof fn law_lexemes_in_order(src: Seq<u8>, i: int, m: int, n: int)
    requires
        0 <= i,
        0 <= m < n < lex_from(src, i).lexemes.len(),
    ensures
        lex_from(src, i).lexemes[m].end <= lex_from(src, i).lexemes[n].start,
    decreases n - m,
{
    law_lexemes_tile_source(src, i, n);
    if m < n - 1 {
        law_lexemes_in_order(src, i, m, n - 1);
        law_lexemes_tile_source(src, i, n - 1);
    }
}

/// Tokens come in ascending order of position: of two tokens of a pass,
/// the earlier one stands on an earlier line, or on the same line in an
/// earlier column.
pub proof fn law_tokens_ascend(src: Seq<u8>, m: int, n: int)
    requires
        src.len() <= usize::MAX,
        0 <= m < n < lex_from(src, 0).lexemes.len(),
    ensures
        precedes(
            tokens_of(src, lex_from(src, 0).lexemes)[m].pos,
            tokens_of(src, lex_from(src, 0).lexemes)[n].pos,
        ),
{
    let lexemes = lex_from(src, 0).lexemes;
    law_lexemes_in_order(src, 0, m, n);
    law_lexemes_tile_source(src, 0, m);
    law_lexemes_tile_source(src, 0, n);
    lemma_position_increases(src, lexemes[m].start, lexemes[n].start);
    lemma_position_bounds(src, lexemes[m].start);
    lemma_position_bounds(src, lexemes[n].start);
}

/// A reserved word is read as its keyword wherever it stands: when the
/// longest word at an offset is the spelling of a keyword, the token read
/// there is that keyword.
pub proof fn law_reserved_word_is_keyword(src: Seq<u8>, i: int, keyword: Keyword)
    requires
        0 <= i < src.len(),
        src.subrange(i, run_end(src, i, ByteClass::Word)) == keyword.spelling(),
    ensures
        scan_token(src, i) == (Scan::Token {
            kind: KindView::Keyword(keyword),
            end: run_end(src, i, ByteClass::Word),
        }),
{
    lemma_run_end(src, i, ByteClass::Word);
    lemma_keyword_of_spelling(keyword);
    let text = src.subrange(i, run_end(src, i, ByteClass::Word));
    assert(text.len() > 0 && is_word_start(text[0]));
    assert(text[0] == src[i]);
}

/// No identifier is a reserved word: the name of an identifier token of a
/// pass is not found in the table of reserved words.
pub proof fn law_identifier_is_not_reserved(src: Seq<u8>, i: int, n: int)
    requires
        0 <= i,
        0 <= n < lex_from(src, i).lexemes.len(),
    ensures
        lex_from(src, i).lexemes[n].kind matches KindView::Identifier(name) ==> keyword_of(name)
            is None,
{
    law_lexemes_tile_source(src, i, n);
}

/// Lines and columns are counted from 1: no token of a pass stands on line
/// 0 or in column 0.
pub proof fn law_positions_count_from_one(src: Seq<u8>, n: int)
    requires
        src.len() <= usize::MAX,
        0 <= n < lex_from(src, 0).lexemes.len(),
    ensures
        tokens_of(src, lex_from(src, 0).lexemes)[n].pos.line >= 1,
        tokens_of(src, lex_from(src, 0).lexemes)[n].pos.col >= 1,
{
    law_lexemes_tile_source(src, 0, n);
    lemma_position_bounds(src, lex_from(src, 0).lexemes[n].start);
}

/// A symbol is never split: where the source spells a symbol, the token
/// read there is a symbol that holds at least the bytes of that one.
pub proof fn law_symbol_is_not_split(src: Seq<u8>, i: int, width: int)
    requires
        spells_symbol(src, i, width),
    ensures
        scan_symbol(src, i) matches Scan::Token { kind, end } && kind is Symbol && end >= i
            + width,
{
}

/// What a token says of the source text it was read from. A keyword or a
/// symbol was read from its spelling and an identifier from its name; an
/// integer is the value of its text; a float holds its text, which is a
/// decimal float and no integer; a string or a character was read from a
/// pair of quotes. A string holds the decoded bytes between them, borrowed
/// exactly when there was nothing to decode; a character is the byte
/// between them, or the byte that the escape pair between them stands for.
pub proof fn law_token_matches_text(src: Seq<u8>, i: int, n: int)
    requires
        0 <= i,
        0 <= n < lex_from(src, i).lexemes.len(),
    ensures
        ({
            let lexeme = lex_from(src, i).lexemes[n];
            let text = src.subrange(lexeme.start, lexeme.end);
            match lexeme.kind {
                KindView::Keyword(keyword) => text == keyword.spelling(),
                KindView::Symbol(symbol) => text == symbol.spelling(),
                KindView::Identifier(name) => text == name,
                KindView::Literal(LiteralView::Int(value)) => integer_value(text) == Some(value),
                KindView::Literal(LiteralView::Float(digits)) => text == digits
                    && is_decimal_float(digits) && integer_value(digits) is None,
                KindView::Literal(LiteralView::String { value, borrowed }) => {
                    let body = text.subrange(1, text.len() - 1);
                    &&& text.len() >= 2
                    &&& text.first() == QUOTE
                    &&& text.last() == QUOTE
                    &&& value == decode(body)
                    &&& borrowed == !has_escape(body)
                    &&& borrowed ==> value == body
                },
                KindView::Literal(LiteralView::Char(value)) => {
                    &&& text.len() >= 3
                    &&& text.first() == APOSTROPHE
                    &&& text.last() == APOSTROPHE
                    &&& if text[1] == BACKSLASH {
                        &&& text.len() == 4
                        &&& is_char_escape(text[2])
                        &&& value == unescape(text[2]) as char
                    } else {
                        &&& text.len() == 3
                        &&& value == text[1] as char
                    }
                },
            }
        }),
{
    law_lexemes_tile_source(src, i, n);
    let lexeme = lex_from(src, i).lexemes[n];
    let text = src.subrange(lexeme.start, lexeme.end);
    match lexeme.kind {
        KindView::Symbol(symbol) => {
            let start = lexeme.start;
            assert(scan_token(src, start) == scan_symbol(src, start));
            assert(lexeme.end == start + symbol_width(src, start));
            assert(symbol_of(text) == Some(symbol));
            lemma_spelling_of_symbol(text);
        },
        KindView::Literal(LiteralView::String { value, borrowed }) => {
            lemma_string_end_bounds(src, lexeme.start + 1);
            let body = src.subrange(lexeme.start + 1, lexeme.end - 1);
            assert(text.subrange(1, text.len() - 1) =~= body);
            if borrowed {
                lemma_decode_plain(body, 0);
                assert(body.skip(0) =~= body);
            }
        },
        _ => {},
    }
}

/// The table of reserved words is exact: a text is found in it under a
/// keyword exactly when it is the spelling of that keyword, byte for byte.
pub proof fn law_keyword_table_is_exact(text: Seq<u8>, keyword: Keyword)
    ensures
        keyword_of(text) == Some(keyword) <==> text == keyword.spelling(),
{
    lemma_keyword_of_spelling(keyword);
}

/// The table of symbols is exact: a text is found in it under a symbol
/// exactly when it is the spelling of that symbol.
pub proof fn law_symbol_table_is_exact(text: Seq<u8>, symbol: Symbol)
    ensures
        symbol_of(text) == Some(symbol) <==> text == symbol.spelling(),
{
    lemma_symbol_of_spelling(symbol);
    if symbol_of(text) is Some {
        lemma_spelling_of_symbol(text);
    }
}

} // verus!
