use lexer::escape::{decode_body, is_char_escape, is_string_escape, unescape};
use lexer::{Kind, LexError, LexErrorKind, Lexer, Literal, Position, Symbol, Token};
use std::borrow::Cow;

fn lex(input: &[u8]) -> Result<Vec<Token<'_>>, LexError> {
    let mut lexer = Lexer::new(input);
    lexer.lex()?;
    Ok(lexer.get_tokens())
}

fn text_of<'t, 'a>(token: &'t Token<'a>) -> &'t Cow<'a, [u8]> {
    match token.kind() {
        Kind::Literal(Literal::String(text)) => text,
        other => panic!("not a string: {:?}", other),
    }
}

#[test]
fn empty_string_is_borrowed() {
    let tokens = lex(b"\"\"").unwrap();
    assert_eq!(tokens.len(), 1);
    let text = text_of(&tokens[0]);
    assert!(matches!(text, Cow::Borrowed(_)));
    assert_eq!(text.len(), 0);
}

#[test]
fn each_string_escape_gives_its_byte() {
    for (source, value) in [
        (&b"\"\\\\\""[..], &b"\\"[..]),
        (&b"\"\\\"\""[..], &b"\""[..]),
        (&b"\"\\t\""[..], &b"\t"[..]),
        (&b"\"\\n\""[..], &b"\n"[..]),
        (&b"\"\\r\""[..], &b"\r"[..]),
    ] {
        let tokens = lex(source).unwrap();
        assert_eq!(tokens.len(), 1);
        let text = text_of(&tokens[0]);
        assert!(matches!(text, Cow::Owned(_)));
        assert_eq!(text.as_ref(), value);
    }
}

#[test]
fn escapes_are_decoded_among_plain_bytes() {
    let tokens = lex(b"\"say \\\"hi\\\"\\n\\tdone\\\\\"").unwrap();
    assert_eq!(tokens.len(), 1);
    assert_eq!(text_of(&tokens[0]).as_ref(), &b"say \"hi\"\n\tdone\\"[..]);
}

#[test]
fn escaped_backslash_does_not_escape_what_follows() {
    let tokens = lex(b"\"a\\\\\" x").unwrap();
    assert_eq!(tokens.len(), 2);
    assert_eq!(text_of(&tokens[0]).as_ref(), &b"a\\"[..]);
    assert_eq!(tokens[1].pos(), Position { line: 1, col: 7 });

    let tokens = lex(b"\"\\\\n\"").unwrap();
    assert_eq!(text_of(&tokens[0]).as_ref(), &b"\\n"[..]);
}

#[test]
fn escaped_quote_does_not_close_the_string() {
    let tokens = lex(b"\"a\\\"b\"").unwrap();
    assert_eq!(tokens.len(), 1);
    assert_eq!(text_of(&tokens[0]).as_ref(), &b"a\"b"[..]);

    let error = lex(b"\"a\\\"").unwrap_err();
    assert_eq!(error.kind, LexErrorKind::UnterminatedString);
}

#[test]
fn string_keeps_bytes_that_mean_something_elsewhere() {
    let source = b"\"let x = 'c'; // 1-2 #\"";
    let tokens = lex(source).unwrap();
    assert_eq!(tokens.len(), 1);
    let text = text_of(&tokens[0]);
    assert!(matches!(text, Cow::Borrowed(_)));
    assert_eq!(text.as_ref(), &source[1..source.len() - 1]);
}

#[test]
fn string_keeps_bytes_above_ascii() {
    let source = [b'"', 0xC3, 0xA9, 0xFF, 0x00, b'"'];
    let tokens = lex(&source).unwrap();
    assert_eq!(tokens.len(), 1);
    assert_eq!(text_of(&tokens[0]).as_ref(), &source[1..5]);
}

#[test]
fn string_may_span_lines() {
    let tokens = lex(b"\"one\ntwo\nthree\" x").unwrap();
    assert_eq!(tokens.len(), 2);
    let text = text_of(&tokens[0]);
    assert!(matches!(text, Cow::Borrowed(_)));
    assert_eq!(text.as_ref(), &b"one\ntwo\nthree"[..]);
    assert_eq!(tokens[0].pos(), Position { line: 1, col: 1 });
    assert_eq!(tokens[1].pos(), Position { line: 3, col: 8 });
}

#[test]
fn string_that_ends_with_a_newline_puts_the_quote_in_column_one() {
    let tokens = lex(b"\"a\n\"x").unwrap();
    assert_eq!(tokens.len(), 2);
    assert_eq!(tokens[1].pos(), Position { line: 2, col: 2 });
}

#[test]
fn escaped_n_is_no_new_line_in_the_source() {
    let tokens = lex(b"\"a\\nb\" x").unwrap();
    assert_eq!(tokens.len(), 2);
    assert_eq!(text_of(&tokens[0]).as_ref(), &b"a\nb"[..]);
    assert_eq!(tokens[1].pos(), Position { line: 1, col: 8 });
}

#[test]
fn strings_side_by_side_are_separate() {
    let tokens = lex(b"\"a\"\"b\"").unwrap();
    assert_eq!(tokens.len(), 2);
    assert_eq!(text_of(&tokens[0]).as_ref(), &b"a"[..]);
    assert_eq!(text_of(&tokens[1]).as_ref(), &b"b"[..]);
    assert_eq!(tokens[1].pos(), Position { line: 1, col: 4 });
}

#[test]
fn unknown_escape_in_string_fails() {
    for code in [b'q', b'\'', b'0', b'x', b'a', b' ', b'\n', b'T', b'N', 0x80] {
        let source = [b'"', b'a', b'\\', code, b'"'];
        let error = lex(&source).unwrap_err();
        assert_eq!(error.kind, LexErrorKind::InvalidEscape);
        assert_eq!(error.byte, code);
        assert_eq!(error.pos, Position { line: 1, col: 4 });
    }
}

#[test]
fn unknown_escape_is_found_before_a_missing_quote() {
    let error = lex(b"\"a\\qb").unwrap_err();
    assert_eq!(error.kind, LexErrorKind::InvalidEscape);
    assert_eq!(error.byte, b'q');
}

#[test]
fn unknown_escape_on_a_later_line_has_its_own_position() {
    let error = lex(b"x \"ab\ncd\\q\"").unwrap_err();
    assert_eq!(error.kind, LexErrorKind::InvalidEscape);
    assert_eq!(error.byte, b'q');
    assert_eq!(error.pos, Position { line: 2, col: 4 });
}

#[test]
fn string_without_closing_quote_fails() {
    for source in [
        &b"\""[..],
        &b"\"abc"[..],
        &b"\"abc\n"[..],
        &b"\"abc\\"[..],
        &b"\"abc\\\""[..],
        &b"\"abc\\n"[..],
        &b"\"'"[..],
    ] {
        let error = lex(source).unwrap_err();
        assert_eq!(error.kind, LexErrorKind::UnterminatedString);
        assert_eq!(error.byte, b'"');
        assert_eq!(error.pos, Position { line: 1, col: 1 });
    }
}

#[test]
fn unterminated_string_is_reported_at_its_opening_quote() {
    let error = lex(b"a = \"b\";\nc = \"d;\n").unwrap_err();
    assert_eq!(error.kind, LexErrorKind::UnterminatedString);
    assert_eq!(error.byte, b'"');
    assert_eq!(error.pos, Position { line: 2, col: 5 });
}

#[test]
fn string_between_other_tokens() {
    let tokens = lex(b"print(\"hi\");").unwrap();
    assert_eq!(tokens.len(), 5);
    assert_eq!(text_of(&tokens[2]).as_ref(), &b"hi"[..]);
    assert_eq!(tokens[2].pos(), Position { line: 1, col: 7 });
    assert_eq!(*tokens[3].kind(), Kind::Symbol(Symbol::RightParam));
    assert_eq!(tokens[3].pos(), Position { line: 1, col: 11 });
}

#[test]
fn decode_body_replaces_each_escape_pair() {
    assert_eq!(decode_body(b""), b"".to_vec());
    assert_eq!(decode_body(b"plain"), b"plain".to_vec());
    assert_eq!(decode_body(b"a\\tb"), b"a\tb".to_vec());
    assert_eq!(decode_body(b"\\\\\\\"\\n\\r\\t"), b"\\\"\n\r\t".to_vec());
    assert_eq!(decode_body(b"\\\\n"), b"\\n".to_vec());
    assert_eq!(decode_body(b"x\\"), b"x\\".to_vec());
}

#[test]
fn escape_codes_are_told_apart() {
    for code in 0..=255u8 {
        let common = code == b'\\' || code == b't' || code == b'n' || code == b'r';
        assert_eq!(is_string_escape(code), common || code == b'"');
        assert_eq!(is_char_escape(code), common || code == b'\'');
    }
    assert_eq!(unescape(b't'), b'\t');
    assert_eq!(unescape(b'n'), b'\n');
    assert_eq!(unescape(b'r'), b'\r');
    assert_eq!(unescape(b'\\'), b'\\');
    assert_eq!(unescape(b'"'), b'"');
    assert_eq!(unescape(b'\''), b'\'');
}
