use elixir_quoted::error::Error;
use elixir_quoted::parser::ast::Expr;
use elixir_quoted::parser::batch::parse_many;
use elixir_quoted::parser::grammar::ParseError;

#[test]
fn test_parse_many_splits_and_parses_each_segment() {
    let batch = "fileA|)&@^#%{:foo, 5}@!&*(^)|fileB|)&@^#%[1, 2]";
    let items = parse_many(batch);
    assert_eq!(items.len(), 2);
    assert_eq!(items[0].0, "fileA");
    assert_eq!(
        items[0].1,
        Ok(Expr::Tuple {
            exprs: vec![
                Expr::Atom("foo".to_string()),
                Expr::Number("5".to_string()),
            ],
        })
    );
    assert_eq!(items[1].0, "fileB");
    assert_eq!(
        items[1].1,
        Ok(Expr::List {
            exprs: vec![
                Expr::Number("1".to_string()),
                Expr::Number("2".to_string()),
            ],
        })
    );
}

#[test]
fn test_parse_many_skips_empty_segments() {
    let batch = "@!&*(^)|fileA|)&@^#%5@!&*(^)|";
    let items = parse_many(batch);
    assert_eq!(items.len(), 1);
    assert_eq!(items[0].0, "fileA");
    assert_eq!(items[0].1, Ok(Expr::Number("5".to_string())));
}

#[test]
fn test_parse_many_reports_bad_segments() {
    // The second segment's dump is malformed; the third parses again. The
    // caller decides whether to read past the failure.
    let batch = "good|)&@^#%{}@!&*(^)|bad|)&@^#%{5,}@!&*(^)|later|)&@^#%[]";
    let items = parse_many(batch);
    assert_eq!(items.len(), 3);
    assert_eq!(items[0].1, Ok(Expr::Tuple { exprs: vec![] }));
    assert_eq!(items[1].0, "bad");
    assert!(items[1].1.is_err());
    assert_eq!(items[2].1, Ok(Expr::List { exprs: vec![] }));
}

#[test]
fn test_parse_many_segment_without_label_separator() {
    // The whole segment is its label, and there is no dump text to parse.
    let items = parse_many("orphan");
    assert_eq!(items.len(), 1);
    assert_eq!(items[0].0, "orphan");
    assert_eq!(
        items[0].1,
        Err(Error::ParseError(ParseError::UnexpectedEof))
    );
}
