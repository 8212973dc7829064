use elixir_quoted::error::Error;
use elixir_quoted::parser::ast::Expr;
use elixir_quoted::parser::grammar::ParseError;
use elixir_quoted::parser::lexer::LexicalError;
use elixir_quoted::parser::{parse_quoted, parse_quoted_strict, ElixirParser};

fn atom(name: &str) -> Expr {
    Expr::Atom(name.to_string())
}

fn number(text: &str) -> Expr {
    Expr::Number(text.to_string())
}

fn binary(data: &str) -> Expr {
    Expr::Binary(data.to_string())
}

#[test]
fn test_simple_exprs() {
    enum Shape {
        Number,
        Binary,
        Atom,
        List,
        Tuple,
    }
    let exprs = vec![
        ("100000", Shape::Number),
        ("100.0001", Shape::Number),
        ("\"I am a binary with spaces and such.\"", Shape::Binary),
        (":foo", Shape::Atom),
        (":\"f oo\"", Shape::Atom),
        (":{}", Shape::Atom),
        ("[]", Shape::List),
        ("[5]", Shape::List),
        ("[5, :foo]", Shape::List),
        ("[foo: 5]", Shape::List),
        ("{}", Shape::Tuple),
        ("{5}", Shape::Tuple),
        ("{5, :foo}", Shape::Tuple),
        ("{:%{}, [line: 1], [foo: 5]}", Shape::Tuple),
        ("{:%{}, [line: 11], [path: \"bad_filename\"]}", Shape::Tuple),
        ("[\"abcd\\nefgh.\\n\"]", Shape::List),
    ];

    for (expr, shape) in exprs {
        let parsed = ElixirParser::parse(expr).expect("Parse error");
        let ok = match shape {
            Shape::Number => matches!(parsed, Expr::Number(_)),
            Shape::Binary => matches!(parsed, Expr::Binary(_)),
            Shape::Atom => matches!(parsed, Expr::Atom(_)),
            Shape::List => matches!(parsed, Expr::List { .. }),
            Shape::Tuple => matches!(parsed, Expr::Tuple { .. }),
        };
        assert!(ok, "wrong shape for {:?}: {:?}", expr, parsed);
    }

    // Quoted literals carry no escape decoding: a backslash-escaped quote
    // ends the capture, so these two inputs cannot be represented and fail.
    assert!(ElixirParser::parse("\"Escaped \\\" within\"").is_err());
    assert!(ElixirParser::parse(r#"[" \"foo\" "]"#).is_err());
}

#[test]
fn test_empty_tuple_and_list() {
    assert_eq!(parse_quoted("{}"), Ok(Expr::Tuple { exprs: vec![] }));
    assert_eq!(parse_quoted("[]"), Ok(Expr::List { exprs: vec![] }));
}

#[test]
fn test_nested_list() {
    let parsed = parse_quoted("[{:foo, 5}, \"bar\"]").expect("parse failed");
    assert_eq!(
        parsed,
        Expr::List {
            exprs: vec![
                Expr::Tuple { exprs: vec![atom("foo"), number("5")] },
                binary("bar"),
            ],
        }
    );
}

#[test]
fn test_child_count_and_order() {
    let parsed = parse_quoted("{1, 2, 3, 4, 5}").expect("parse failed");
    assert_eq!(
        parsed,
        Expr::Tuple {
            exprs: vec![number("1"), number("2"), number("3"), number("4"), number("5")],
        }
    );
    let parsed = parse_quoted("[:a, :b, :c]").expect("parse failed");
    assert_eq!(
        parsed,
        Expr::List { exprs: vec![atom("a"), atom("b"), atom("c")] }
    );
}

#[test]
fn test_sugar_tuple_matches_explicit_tuple() {
    let sugar = parse_quoted("[foo: 5]").expect("parse failed");
    let explicit = parse_quoted("[{:foo, 5}]").expect("parse failed");
    assert_eq!(sugar, explicit);
    assert_eq!(
        sugar,
        Expr::List {
            exprs: vec![Expr::Tuple { exprs: vec![atom("foo"), number("5")] }],
        }
    );
}

#[test]
fn test_sugar_tuple_rejected_outside_lists() {
    assert!(parse_quoted("foo: 5").is_err());
    assert!(parse_quoted("{foo: 5}").is_err());
}

#[test]
fn test_keywords_parse_as_distinct_atoms() {
    assert_eq!(parse_quoted("nil"), Ok(atom("nil")));
    assert_eq!(parse_quoted("true"), Ok(atom("true")));
    assert_eq!(parse_quoted("false"), Ok(atom("false")));
    assert_eq!(parse_quoted(":nil"), Ok(atom("nil")));
    // A near-keyword is a plain identifier, and a bare identifier opens no
    // expression.
    assert!(parse_quoted("nily").is_err());
}

#[test]
fn test_trailing_comma_is_rejected() {
    let got = parse_quoted("{5,}");
    assert!(
        matches!(
            got,
            Err(Error::ParseError(ParseError::UnexpectedToken { .. }))
        ),
        "expected an unexpected-token error, got {:?}",
        got
    );
}

#[test]
fn test_unterminated_string_is_rejected() {
    assert_eq!(
        parse_quoted("\"abc"),
        Err(Error::ParseError(ParseError::Lexical(
            LexicalError::UnterminatedString { start: 0 }
        )))
    );
}

#[test]
fn test_error_variants_and_positions() {
    // A closing delimiter opens no expression; its span is reported.
    assert_eq!(
        parse_quoted("}"),
        Err(Error::ParseError(ParseError::UnexpectedToken {
            tok: elixir_quoted::parser::lexer::Tok::RCurly,
            start: 0,
            end: 1,
        }))
    );
    // A tuple left open runs out of tokens.
    assert_eq!(
        parse_quoted("{5"),
        Err(Error::ParseError(ParseError::UnexpectedEof))
    );
    // A second expression after the first is trailing input.
    assert!(matches!(
        parse_quoted("5 5"),
        Err(Error::ParseError(ParseError::Trailing { .. }))
    ));
    // A malformed numeric capture is a lexical error with its span.
    assert_eq!(
        parse_quoted("[1..2]"),
        Err(Error::ParseError(ParseError::Lexical(
            LexicalError::InvalidNumber { start: 1, end: 5 }
        )))
    );
}

#[test]
fn test_equal_trees_from_different_spellings() {
    // The same tree value has more than one textual encoding.
    assert_eq!(parse_quoted("{1,2}"), parse_quoted("{ 1 , 2 }"));
    assert_eq!(parse_quoted("[foo: {}]"), parse_quoted("[ {:foo, {}} ]"));
    assert_eq!(parse_quoted(":%{}"), parse_quoted(":  %{}"));
    assert_eq!(parse_quoted(":%{}"), Ok(atom("%{}")));
}

#[test]
fn test_strict_mode_rejects_unrecognized_characters() {
    // The lenient scan drops what matches no rule; the strict scan stops
    // on it.
    assert_eq!(parse_quoted("(5)"), Ok(number("5")));
    assert_eq!(
        parse_quoted_strict("(5)"),
        Err(Error::ParseError(ParseError::Lexical(
            LexicalError::UnrecognizedChar { at: 0 }
        )))
    );
    // On input made only of recognized characters the two modes agree.
    assert_eq!(
        parse_quoted_strict("[{:foo,5},\"bar\"]"),
        parse_quoted("[{:foo,5},\"bar\"]")
    );
    // Whitespace matches no rule either: the dump format relies on the
    // lenient scan.
    assert!(parse_quoted_strict("{1, 2}").is_err());
    assert_eq!(parse_quoted_strict("{1,2}"), parse_quoted("{1,2}"));
}

#[test]
fn test_reserved_module_names_only_after_colon() {
    // `Access` and `Kernel` are reserved tokens; they are atoms behind a
    // colon but, unlike `nil`, `true` and `false`, stand for nothing alone.
    assert_eq!(parse_quoted(":Access"), Ok(atom("Access")));
    assert_eq!(parse_quoted(":Kernel"), Ok(atom("Kernel")));
    assert!(parse_quoted("Access").is_err());
    assert!(parse_quoted("Kernel").is_err());
}

#[test]
fn test_deep_nesting() {
    let parsed = parse_quoted("{[{}], [[:a]]}").expect("parse failed");
    assert_eq!(
        parsed,
        Expr::Tuple {
            exprs: vec![
                Expr::List { exprs: vec![Expr::Tuple { exprs: vec![] }] },
                Expr::List {
                    exprs: vec![Expr::List { exprs: vec![atom("a")] }],
                },
            ],
        }
    );
}

#[test]
fn test_marker_as_sugar_key() {
    // The marker is an identifier token, so in list position it can stand
    // as a sugar key like any identifier.
    assert_eq!(parse_quoted("[%{}: 5]"), parse_quoted("[{:%{}, 5}]"));
}

#[test]
fn test_number_payload_reads_as_float() {
    match parse_quoted("100.0001").expect("parse failed") {
        Expr::Number(text) => {
            let value: f64 = text.parse().expect("not a float");
            assert_eq!(value, 100.0001_f64);
        },
        other => panic!("expected a number, got {:?}", other),
    }
}
