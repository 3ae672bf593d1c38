use lexer::classify::{
    is_digit, is_letter, is_whitespace, is_word_start, scan_run, ByteClass, APOSTROPHE,
    BACKSLASH, NEWLINE, QUOTE,
};
use lexer::{Keyword, Kind, LexErrorKind, Lexer, Literal, Position, Symbol};

#[test]
fn empty_input_has_no_tokens() {
    let mut lexer = Lexer::new(b"");
    assert_eq!(lexer.lex(), Ok(()));
    assert_eq!(lexer.get_tokens().len(), 0);
}

#[test]
fn whitespace_only_input_has_no_tokens() {
    for source in [
        &b" "[..],
        &b"\n"[..],
        &b"\t"[..],
        &b"\r"[..],
        &b"\x0c"[..],
        &b"   \t\t\n\n\r\n \x0c  \n"[..],
    ] {
        let mut lexer = Lexer::new(source);
        assert_eq!(lexer.lex(), Ok(()));
        assert_eq!(lexer.get_tokens().len(), 0);
    }
    let long = vec![b' '; 10_000];
    let mut lexer = Lexer::new(&long);
    assert_eq!(lexer.lex(), Ok(()));
    assert_eq!(lexer.get_tokens().len(), 0);
}

#[test]
fn vertical_tab_is_no_whitespace() {
    let mut lexer = Lexer::new(b" \x0b ");
    let error = lexer.lex().unwrap_err();
    assert_eq!(error.kind, LexErrorKind::UnrecognizedCharacter);
    assert_eq!(error.byte, 0x0b);
    assert_eq!(error.pos, Position { line: 1, col: 2 });
}

#[test]
fn new_lexer_has_no_tokens() {
    let lexer = Lexer::new(b"let x = 1;");
    assert_eq!(lexer.get_tokens().len(), 0);
}

#[test]
fn second_pass_adds_nothing() {
    let mut lexer = Lexer::new(b"a + b");
    assert_eq!(lexer.lex(), Ok(()));
    assert_eq!(lexer.lex(), Ok(()));
    let tokens = lexer.get_tokens();
    assert_eq!(tokens.len(), 3);
}

#[test]
fn tokens_before_an_error_are_kept() {
    let mut lexer = Lexer::new(b"let x = 1 # 2");
    let error = lexer.lex().unwrap_err();
    assert_eq!(error.kind, LexErrorKind::UnrecognizedCharacter);
    assert_eq!(error.pos, Position { line: 1, col: 11 });
    let tokens = lexer.get_tokens();
    assert_eq!(tokens.len(), 4);
    assert_eq!(*tokens[0].kind(), Kind::Keyword(Keyword::Let));
    assert_eq!(*tokens[2].kind(), Kind::Symbol(Symbol::Equal));
    assert_eq!(*tokens[3].kind(), Kind::Literal(Literal::Int(1)));
}

#[test]
fn pass_after_an_error_fails_again_in_the_same_place() {
    let mut lexer = Lexer::new(b"a 'bc' d");
    let first = lexer.lex().unwrap_err();
    let second = lexer.lex().unwrap_err();
    assert_eq!(first, second);
    assert_eq!(first.kind, LexErrorKind::UnterminatedChar);
    assert_eq!(lexer.get_tokens().len(), 1);
}

#[test]
fn first_error_ends_the_pass() {
    let mut lexer = Lexer::new(b"1..2 \"open 'x");
    let error = lexer.lex().unwrap_err();
    assert_eq!(error.kind, LexErrorKind::InvalidNumber);
    assert_eq!(lexer.get_tokens().len(), 0);
}

#[test]
fn small_program_is_lexed_in_order() {
    let source = b"fn add(a, b) {\n    return a + b;\n}\n";
    let mut lexer = Lexer::new(source);
    assert_eq!(lexer.lex(), Ok(()));
    let tokens = lexer.get_tokens();
    let kinds: Vec<String> = tokens.iter().map(|token| format!("{:?}", token.kind())).collect();
    assert_eq!(tokens.len(), 14);
    assert_eq!(kinds[0], "Keyword(Fn)");
    assert_eq!(*tokens[2].kind(), Kind::Symbol(Symbol::LeftParam));
    assert_eq!(*tokens[4].kind(), Kind::Symbol(Symbol::Comma));
    assert_eq!(*tokens[7].kind(), Kind::Symbol(Symbol::LeftBrace));
    assert_eq!(*tokens[8].kind(), Kind::Keyword(Keyword::Return));
    assert_eq!(tokens[8].pos(), Position { line: 2, col: 5 });
    assert_eq!(*tokens[10].kind(), Kind::Symbol(Symbol::Plus));
    assert_eq!(*tokens[12].kind(), Kind::Symbol(Symbol::SemiColon));
    assert_eq!(*tokens[13].kind(), Kind::Symbol(Symbol::RightBrace));
    assert_eq!(tokens[13].pos(), Position { line: 3, col: 1 });
}

#[test]
fn byte_classes_are_told_apart() {
    for byte in 0..=255u8 {
        assert_eq!(is_letter(byte), byte.is_ascii_alphabetic());
        assert_eq!(is_digit(byte), byte.is_ascii_digit());
        assert_eq!(is_word_start(byte), byte.is_ascii_alphabetic() || byte == b'_');
        assert_eq!(is_whitespace(byte), byte.is_ascii_whitespace());
        assert_eq!(
            ByteClass::Word.contains(byte),
            byte.is_ascii_alphanumeric() || byte == b'_'
        );
        assert_eq!(ByteClass::Digit.contains(byte), byte.is_ascii_digit());
        assert_eq!(
            ByteClass::Number.contains(byte),
            byte.is_ascii_digit() || b".eE-".contains(&byte)
        );
    }
    assert_eq!(NEWLINE, b'\n');
    assert_eq!(QUOTE, b'"');
    assert_eq!(APOSTROPHE, b'\'');
    assert_eq!(BACKSLASH, b'\\');
}

#[test]
fn scan_run_finds_the_end_of_the_longest_run() {
    let source = b"abc_1 23.5e-1;x";
    assert_eq!(scan_run(source, 0, ByteClass::Word), 5);
    assert_eq!(scan_run(source, 2, ByteClass::Word), 5);
    assert_eq!(scan_run(source, 5, ByteClass::Word), 5);
    assert_eq!(scan_run(source, 6, ByteClass::Number), 13);
    assert_eq!(scan_run(source, 6, ByteClass::Digit), 8);
    assert_eq!(scan_run(source, 14, ByteClass::Word), 15);
    assert_eq!(scan_run(source, 15, ByteClass::Word), 15);
    assert_eq!(scan_run(source, 99, ByteClass::Word), 99);
    assert_eq!(scan_run(b"", 0, ByteClass::Digit), 0);
}
