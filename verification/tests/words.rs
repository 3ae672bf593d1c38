use lexer::keyword::lookup_keyword;
use lexer::{Keyword, Kind, LexError, Lexer, Position, Symbol, Token};

fn lex(input: &[u8]) -> Result<Vec<Token<'_>>, LexError> {
    let mut lexer = Lexer::new(input);
    lexer.lex()?;
    Ok(lexer.get_tokens())
}

fn reserved() -> Vec<(&'static [u8], Keyword)> {
    vec![
        (&b"import"[..], Keyword::Import),
        (&b"struct"[..], Keyword::Struct),
        (&b"fn"[..], Keyword::Fn),
        (&b"enum"[..], Keyword::Enum),
        (&b"mod"[..], Keyword::Mod),
        (&b"const"[..], Keyword::Const),
        (&b"let"[..], Keyword::Let),
        (&b"if"[..], Keyword::If),
        (&b"else"[..], Keyword::Else),
        (&b"for"[..], Keyword::For),
        (&b"in"[..], Keyword::In),
        (&b"while"[..], Keyword::While),
        (&b"return"[..], Keyword::Return),
        (&b"break"[..], Keyword::Break),
        (&b"continue"[..], Keyword::Continue),
        (&b"print"[..], Keyword::Print),
    ]
}

fn name_of<'t>(token: &'t Token<'_>) -> &'t [u8] {
    match token.kind() {
        Kind::Identifier(ident) => ident.name(),
        other => panic!("not an identifier: {:?}", other),
    }
}

#[test]
fn every_reserved_word_is_a_keyword() {
    for (text, keyword) in reserved() {
        let tokens = lex(text).unwrap();
        assert_eq!(tokens.len(), 1);
        assert_eq!(*tokens[0].kind(), Kind::Keyword(keyword));
        assert_eq!(lookup_keyword(text), Some(keyword));
    }
}

#[test]
fn reserved_word_is_a_keyword_in_any_surroundings() {
    for (text, keyword) in reserved() {
        for (before, after) in [
            (&b" "[..], &b" "[..]),
            (&b"("[..], &b")"[..]),
            (&b"\n\t"[..], &b";"[..]),
            (&b"1 "[..], &b"\"s\""[..]),
            (&b"x+"[..], &b"-y"[..]),
            (&b"'c'"[..], &b"'d'"[..]),
        ] {
            let mut source = before.to_vec();
            let index = lex(before).unwrap().len();
            source.extend_from_slice(text);
            source.extend_from_slice(after);
            let tokens = lex(&source).unwrap();
            assert_eq!(*tokens[index].kind(), Kind::Keyword(keyword));
        }
    }
}

#[test]
fn longer_word_that_holds_a_reserved_word_is_an_identifier() {
    for text in [
        &b"letx"[..],
        &b"xlet"[..],
        &b"let_"[..],
        &b"_let"[..],
        &b"let1"[..],
        &b"iff"[..],
        &b"i"[..],
        &b"form"[..],
        &b"printer"[..],
        &b"continu"[..],
        &b"continued"[..],
        &b"importstruct"[..],
    ] {
        let tokens = lex(text).unwrap();
        assert_eq!(tokens.len(), 1);
        assert_eq!(name_of(&tokens[0]), text);
        assert_eq!(lookup_keyword(text), None);
    }
}

#[test]
fn reserved_words_are_case_sensitive() {
    for text in [&b"Let"[..], &b"LET"[..], &b"iF"[..], &b"Print"[..], &b"FN"[..]] {
        let tokens = lex(text).unwrap();
        assert_eq!(tokens.len(), 1);
        assert_eq!(name_of(&tokens[0]), text);
    }
}

#[test]
fn identifier_is_never_a_reserved_word() {
    let source = b"if iff fn fnx in inner for fore print printx mod m else elsewhere";
    let tokens = lex(source).unwrap();
    let mut identifiers = 0;
    for token in &tokens {
        if let Kind::Identifier(ident) = token.kind() {
            identifiers += 1;
            assert_eq!(lookup_keyword(ident.name()), None);
        }
    }
    assert_eq!(identifiers, 7);
    assert_eq!(tokens.len(), 14);
}

#[test]
fn word_takes_letters_digits_and_underscores() {
    let tokens = lex(b"_a1_B2__ z9").unwrap();
    assert_eq!(tokens.len(), 2);
    assert_eq!(name_of(&tokens[0]), &b"_a1_B2__"[..]);
    assert_eq!(tokens[0].pos(), Position { line: 1, col: 1 });
    assert_eq!(name_of(&tokens[1]), &b"z9"[..]);
    assert_eq!(tokens[1].pos(), Position { line: 1, col: 10 });
}

#[test]
fn word_ends_at_the_first_other_byte() {
    let tokens = lex(b"abc.def").unwrap();
    assert_eq!(tokens.len(), 3);
    assert_eq!(name_of(&tokens[0]), &b"abc"[..]);
    assert_eq!(*tokens[1].kind(), Kind::Symbol(Symbol::Dot));
    assert_eq!(name_of(&tokens[2]), &b"def"[..]);
    assert_eq!(tokens[2].pos(), Position { line: 1, col: 5 });
}

#[test]
fn identifier_text_is_a_slice_of_the_source() {
    let source = b"  name ";
    let tokens = lex(source).unwrap();
    assert_eq!(tokens.len(), 1);
    assert!(std::ptr::eq(name_of(&tokens[0]), &source[2..6]));
}

#[test]
fn single_underscore_is_an_identifier() {
    let tokens = lex(b"_").unwrap();
    assert_eq!(tokens.len(), 1);
    assert_eq!(name_of(&tokens[0]), &b"_"[..]);
}
