use elixir_quoted::parser::lexer::{Lexer, LexicalError, Tok};

#[test]
fn test_lexer() {
    let mut lex: Lexer = Lexer::new("[{:foo, 5}, \"bar\"]");
    assert_eq!(lex.next(), Some(Ok((0, Tok::LBrace, 1))));
    assert_eq!(lex.next(), Some(Ok((1, Tok::LCurly, 2))));
    assert_eq!(lex.next(), Some(Ok((2, Tok::Colon, 3))));
    assert_eq!(
        lex.next(),
        Some(Ok((3, Tok::Unquoted("foo".to_string()), 6)))
    );
    assert_eq!(lex.next(), Some(Ok((6, Tok::Comma, 7))));
    assert_eq!(lex.next(), Some(Ok((8, Tok::Number("5".to_string()), 9))));
    assert_eq!(lex.next(), Some(Ok((9, Tok::RCurly, 10))));
    assert_eq!(lex.next(), Some(Ok((10, Tok::Comma, 11))));
    assert_eq!(
        lex.next(),
        Some(Ok((12, Tok::Quoted("bar".to_string()), 17)))
    );
    assert_eq!(lex.next(), Some(Ok((17, Tok::RBrace, 18))));
    assert_eq!(lex.next(), None);
}

#[test]
fn test_empty_map_marker_is_one_token() {
    let mut lex: Lexer = Lexer::new(":%{}");
    assert_eq!(lex.next(), Some(Ok((0, Tok::Colon, 1))));
    assert_eq!(lex.next(), Some(Ok((1, Tok::Unquoted("%{}".to_string()), 4))));
    assert_eq!(lex.next(), None);
}

#[test]
fn test_keywords_become_reserved_tokens() {
    let mut lex: Lexer = Lexer::new("nil true false Access Kernel nily");
    assert_eq!(lex.next(), Some(Ok((0, Tok::Nil, 3))));
    assert_eq!(lex.next(), Some(Ok((4, Tok::True, 8))));
    assert_eq!(lex.next(), Some(Ok((9, Tok::False, 14))));
    assert_eq!(lex.next(), Some(Ok((15, Tok::Access, 21))));
    assert_eq!(lex.next(), Some(Ok((22, Tok::Kernel, 28))));
    assert_eq!(lex.next(), Some(Ok((29, Tok::Unquoted("nily".to_string()), 33))));
    assert_eq!(lex.next(), None);
}

#[test]
fn test_relexing_yields_identical_spans() {
    let input = "[{:foo, 5}, \"bar\"]  %{} 12.5e3";
    let mut first = Vec::new();
    let mut lex: Lexer = Lexer::new(input);
    while let Some(item) = lex.next() {
        first.push(item);
    }
    let mut second = Vec::new();
    let mut lex2: Lexer = Lexer::new(input);
    while let Some(item) = lex2.next() {
        second.push(item);
    }
    assert_eq!(first, second);
}

#[test]
fn test_number_capture_accepts_float_shapes() {
    for (input, expected) in [
        ("100000", "100000"),
        ("100.0001", "100.0001"),
        ("5.", "5."),
        ("1e3", "1e3"),
        ("2.5e10", "2.5e10"),
    ] {
        let mut lex: Lexer = Lexer::new(input);
        let got = lex.next().expect("one token").expect("no error");
        assert_eq!(got.1, Tok::Number(expected.to_string()));
        // The captured text denotes a 64-bit float value.
        assert!(expected.parse::<f64>().is_ok());
    }
}

#[test]
fn test_malformed_numbers_are_lexical_errors() {
    for input in ["1..2", "5e", "1e", "3.4.5"] {
        let mut lex: Lexer = Lexer::new(input);
        let got = lex.next().expect("one item");
        assert!(
            matches!(got, Err(LexicalError::InvalidNumber { .. })),
            "expected an invalid-number error for {:?}, got {:?}",
            input,
            got
        );
        assert!(input.parse::<f64>().is_err());
    }
}

#[test]
fn test_unterminated_string_is_a_lexical_error() {
    let mut lex: Lexer = Lexer::new("\"abc");
    assert_eq!(
        lex.next(),
        Some(Err(LexicalError::UnterminatedString { start: 0 }))
    );
}

#[test]
fn test_unrecognized_characters_are_skipped() {
    let mut lex: Lexer = Lexer::new("  #( 7 )*");
    assert_eq!(lex.next(), Some(Ok((5, Tok::Number("7".to_string()), 6))));
    assert_eq!(lex.next(), None);
}

#[test]
fn test_quoted_capture_is_verbatim() {
    // Backslashes are kept as they stand: no escape decoding. A backslash
    // before a quote therefore cannot keep the quote inside the payload.
    let mut lex: Lexer = Lexer::new("\"abcd\\nefgh.\\n\"");
    assert_eq!(
        lex.next(),
        Some(Ok((0, Tok::Quoted("abcd\\nefgh.\\n".to_string()), 15)))
    );
    assert_eq!(lex.next(), None);
}
