//! The grammar: consumes the spanned token stream and builds a tree value,
//! or fails with a structured error naming the offending token and span.
//!
//! The productions are
//! `expr ::= number | quoted-string | atom | tuple | list`,
//! `atom ::= ':' (identifier | quoted-string | reserved word | '{' '}') `
//! or a bare `nil`/`true`/`false`,
//! `tuple ::= '{' (expr (',' expr)*)? '}'`,
//! `list ::= '[' (list-element (',' list-element)*)? ']'` and
//! `list-element ::= identifier ':' expr | expr` — the sugar form is tried
//! first, and only inside list position. A trailing comma matches no
//! production and is rejected. The whole grammar is modelled by the spec
//! functions below; the executable functions are proved to follow them.

use vstd::prelude::*;

use crate::parser::ast::{Expr, ExprV, expr_view, exprs_view};
use crate::parser::lexer::{LexicalError, LexicalErrorV, Tok, TokV, spanned_views};

verus! {

/// A structured parse failure: the lexical error the scan hit, or the
/// offending token with its span — `Trailing` for a token left over after a
/// complete top-level expression, `UnexpectedEof` where a production needed
/// one more token.
#[derive(Debug, PartialEq, Clone)]
pub enum ParseError {
    Lexical(LexicalError),
    UnexpectedToken { tok: Tok, start: usize, end: usize },
    UnexpectedEof,
    Trailing { tok: Tok, start: usize, end: usize },
}

/// The model of a [`ParseError`].
pub enum ParseErrV {
    Lexical(LexicalErrorV),
    UnexpectedToken { tok: TokV, start: int, end: int },
    UnexpectedEof,
    Trailing { tok: TokV, start: int, end: int },
}

impl View for ParseError {
    type V = ParseErrV;

    open spec fn view(&self) -> ParseErrV {
        match self {
            ParseError::Lexical(le) => ParseErrV::Lexical(le@),
            ParseError::UnexpectedToken { tok, start, end } => ParseErrV::UnexpectedToken {
                tok: tok@,
                start: *start as int,
                end: *end as int,
            },
            ParseError::UnexpectedEof => ParseErrV::UnexpectedEof,
            ParseError::Trailing { tok, start, end } => ParseErrV::Trailing {
                tok: tok@,
                start: *start as int,
                end: *end as int,
            },
        }
    }
}

/// The error for a token that matches no production at its position.
pub open spec fn unexpected(sp: (int, TokV, int)) -> ParseErrV {
    ParseErrV::UnexpectedToken { tok: sp.1, start: sp.0, end: sp.2 }
}

/// Parses one `expr` at position `p`: the parsed tree and the position just
/// past it, or the first error.
pub open spec fn spec_parse_expr(t: Seq<(int, TokV, int)>, p: int) -> Result<
    (ExprV, int),
    ParseErrV,
>
    decreases t.len() - p, 0int,
        when 0 <= p <= t.len()
{
    if p >= t.len() {
        Err(ParseErrV::UnexpectedEof)
    } else {
        match t[p].1 {
            TokV::Number(text) => Ok((ExprV::Number(text), p + 1)),
            TokV::Quoted(data) => Ok((ExprV::Binary(data), p + 1)),
            TokV::Nil => Ok((ExprV::Atom("nil"@), p + 1)),
            TokV::True => Ok((ExprV::Atom("true"@), p + 1)),
            TokV::False => Ok((ExprV::Atom("false"@), p + 1)),
            TokV::Colon => {
                if p + 1 >= t.len() {
                    Err(ParseErrV::UnexpectedEof)
                } else {
                    match t[p + 1].1 {
                        TokV::Unquoted(name) => Ok((ExprV::Atom(name), p + 2)),
                        TokV::Quoted(name) => Ok((ExprV::Atom(name), p + 2)),
                        TokV::Nil => Ok((ExprV::Atom("nil"@), p + 2)),
                        TokV::True => Ok((ExprV::Atom("true"@), p + 2)),
                        TokV::False => Ok((ExprV::Atom("false"@), p + 2)),
                        TokV::Access => Ok((ExprV::Atom("Access"@), p + 2)),
                        TokV::Kernel => Ok((ExprV::Atom("Kernel"@), p + 2)),
                        TokV::LCurly => {
                            if p + 2 >= t.len() {
                                Err(ParseErrV::UnexpectedEof)
                            } else if t[p + 2].1 is RCurly {
                                Ok((ExprV::Atom("{}"@), p + 3))
                            } else {
                                Err(unexpected(t[p + 2]))
                            }
                        },
                        _ => Err(unexpected(t[p + 1])),
                    }
                }
            },
            TokV::LCurly => {
                if p + 1 < t.len() && t[p + 1].1 is RCurly {
                    Ok((ExprV::Tuple { exprs: Seq::empty() }, p + 2))
                } else {
                    match spec_parse_tuple_rest(t, p + 1) {
                        Ok((es, p2)) => Ok((ExprV::Tuple { exprs: es }, p2)),
                        Err(e) => Err(e),
                    }
                }
            },
            TokV::LBrace => {
                if p + 1 < t.len() && t[p + 1].1 is RBrace {
                    Ok((ExprV::List { exprs: Seq::empty() }, p + 2))
                } else {
                    match spec_parse_list_rest(t, p + 1) {
                        Ok((es, p2)) => Ok((ExprV::List { exprs: es }, p2)),
                        Err(e) => Err(e),
                    }
                }
            },
            _ => Err(unexpected(t[p])),
        }
    }
}

/// Parses the elements of a nonempty tuple from the first element on,
/// through the closing delimiter.
pub open spec fn spec_parse_tuple_rest(t: Seq<(int, TokV, int)>, p: int) -> Result<
    (Seq<ExprV>, int),
    ParseErrV,
>
    decreases t.len() - p, 2int,
        when 0 <= p <= t.len()
{
    match spec_parse_expr(t, p) {
        Err(e) => Err(e),
        Ok((e, p2)) => {
            if p2 >= t.len() {
                Err(ParseErrV::UnexpectedEof)
            } else if t[p2].1 is RCurly {
                Ok((seq![e], p2 + 1))
            } else if t[p2].1 is Comma {
                if p < p2 + 1 {
                    match spec_parse_tuple_rest(t, p2 + 1) {
                        Ok((es, p3)) => Ok((seq![e] + es, p3)),
                        Err(e2) => Err(e2),
                    }
                } else {
                    // A parse never stands still, so this branch is beyond
                    // reach; it keeps the definition total.
                    Err(ParseErrV::UnexpectedEof)
                }
            } else {
                Err(unexpected(t[p2]))
            }
        },
    }
}

/// Parses one list element: the sugar form `identifier ':' expr`, which
/// becomes the 2-tuple `(atom, expr)`, or otherwise a plain `expr`.
pub open spec fn spec_parse_list_elem(t: Seq<(int, TokV, int)>, p: int) -> Result<
    (ExprV, int),
    ParseErrV,
>
    decreases t.len() - p, 1int,
        when 0 <= p <= t.len()
{
    if p + 1 < t.len() {
        match t[p].1 {
            TokV::Unquoted(name) => {
                if t[p + 1].1 is Colon {
                    match spec_parse_expr(t, p + 2) {
                        Ok((e, p2)) => Ok(
                            (ExprV::Tuple { exprs: seq![ExprV::Atom(name), e] }, p2),
                        ),
                        Err(e) => Err(e),
                    }
                } else {
                    spec_parse_expr(t, p)
                }
            },
            _ => spec_parse_expr(t, p),
        }
    } else {
        spec_parse_expr(t, p)
    }
}

/// Parses the elements of a nonempty list from the first element on,
/// through the closing delimiter.
pub open spec fn spec_parse_list_rest(t: Seq<(int, TokV, int)>, p: int) -> Result<
    (Seq<ExprV>, int),
    ParseErrV,
>
    decreases t.len() - p, 2int,
        when 0 <= p <= t.len()
{
    match spec_parse_list_elem(t, p) {
        Err(e) => Err(e),
        Ok((e, p2)) => {
            if p2 >= t.len() {
                Err(ParseErrV::UnexpectedEof)
            } else if t[p2].1 is RBrace {
                Ok((seq![e], p2 + 1))
            } else if t[p2].1 is Comma {
                if p < p2 + 1 {
                    match spec_parse_list_rest(t, p2 + 1) {
                        Ok((es, p3)) => Ok((seq![e] + es, p3)),
                        Err(e2) => Err(e2),
                    }
                } else {
                    // Beyond reach, as in `spec_parse_tuple_rest`.
                    Err(ParseErrV::UnexpectedEof)
                }
            } else {
                Err(unexpected(t[p2]))
            }
        },
    }
}

/// Parses a whole token stream: one `expr`, with nothing allowed to follow.
pub open spec fn spec_parse_toks(t: Seq<(int, TokV, int)>) -> Result<ExprV, ParseErrV> {
    match spec_parse_expr(t, 0) {
        Err(e) => Err(e),
        Ok((e, p)) => {
            if p >= t.len() {
                Ok(e)
            } else {
                Err(ParseErrV::Trailing { tok: t[p].1, start: t[p].0, end: t[p].2 })
            }
        },
    }
}

/// Parses a whole input text: what the grammar makes of the token stream
/// the lexer yields in the chosen mode, or the lexical error the scan hit.
/// The model of [`crate::parser::parse_quoted`].
pub open spec fn spec_parse_text(s: Seq<char>, strict: bool) -> Result<ExprV, ParseErrV> {
    match crate::parser::lexer::spec_lex(s, strict) {
        Err(le) => Err(ParseErrV::Lexical(le)),
        Ok(toks) => spec_parse_toks(toks),
    }
}

/// A successful parse consumes at least one token and never runs past the
/// end of the stream.
pub proof fn lemma_parse_expr_advances(t: Seq<(int, TokV, int)>, p: int)
    requires
        0 <= p <= t.len(),
    ensures
        spec_parse_expr(t, p) matches Ok(r) ==> p < r.1 <= t.len(),
    decreases t.len() - p, 0int,
{
    if p < t.len() {
        match t[p].1 {
            TokV::LCurly => {
                if !(p + 1 < t.len() && t[p + 1].1 is RCurly) {
                    lemma_parse_tuple_rest_advances(t, p + 1);
                }
            },
            TokV::LBrace => {
                if !(p + 1 < t.len() && t[p + 1].1 is RBrace) {
                    lemma_parse_list_rest_advances(t, p + 1);
                }
            },
            _ => {},
        }
    }
}

/// As [`lemma_parse_expr_advances`], for nonempty tuple elements.
pub proof fn lemma_parse_tuple_rest_advances(t: Seq<(int, TokV, int)>, p: int)
    requires
        0 <= p <= t.len(),
    ensures
        spec_parse_tuple_rest(t, p) matches Ok(r) ==> p < r.1 <= t.len(),
    decreases t.len() - p, 2int,
{
    lemma_parse_expr_advances(t, p);
    if let Ok((e, p2)) = spec_parse_expr(t, p) {
        if p2 < t.len() && t[p2].1 is Comma {
            lemma_parse_tuple_rest_advances(t, p2 + 1);
        }
    }
}

/// As [`lemma_parse_expr_advances`], for one list element.
pub proof fn lemma_parse_list_elem_advances(t: Seq<(int, TokV, int)>, p: int)
    requires
        0 <= p <= t.len(),
    ensures
        spec_parse_list_elem(t, p) matches Ok(r) ==> p < r.1 <= t.len(),
    decreases t.len() - p, 1int,
{
    lemma_parse_expr_advances(t, p);
    if p + 1 < t.len() && t[p].1 is Unquoted && t[p + 1].1 is Colon {
        lemma_parse_expr_advances(t, p + 2);
    }
}

/// As [`lemma_parse_expr_advances`], for nonempty list elements.
pub proof fn lemma_parse_list_rest_advances(t: Seq<(int, TokV, int)>, p: int)
    requires
        0 <= p <= t.len(),
    ensures
        spec_parse_list_rest(t, p) matches Ok(r) ==> p < r.1 <= t.len(),
    decreases t.len() - p, 2int,
{
    lemma_parse_list_elem_advances(t, p);
    if let Ok((e, p2)) = spec_parse_list_elem(t, p) {
        if p2 < t.len() && t[p2].1 is RBrace {
        } else if p2 < t.len() && t[p2].1 is Comma {
            lemma_parse_list_rest_advances(t, p2 + 1);
        }
    }
}

/// The error for the spanned token at hand.
fn unexpected_at(sp: &(usize, Tok, usize)) -> (r: ParseError)
    ensures
        r@ == unexpected((sp.0 as int, sp.1@, sp.2 as int)),
{
    ParseError::UnexpectedToken { tok: sp.1.clone(), start: sp.0, end: sp.2 }
}

/// What the executable expression parser must return: exactly what
/// [`spec_parse_expr`] says, tree and position on success, the same error
/// otherwise.
pub open spec fn expr_outcome(
    t: Seq<(int, TokV, int)>,
    p: int,
    r: Result<(Expr, usize), ParseError>,
) -> bool {
    match spec_parse_expr(t, p) {
        Ok(ev) => r matches Ok(pr) && pr.0@ == ev.0 && pr.1 == ev.1,
        Err(e) => r matches Err(pe) && pe@ == e,
    }
}

/// As [`expr_outcome`], for the element parsers.
pub open spec fn elems_outcome(
    sr: Result<(Seq<ExprV>, int), ParseErrV>,
    r: Result<(Vec<Expr>, usize), ParseError>,
) -> bool {
    match sr {
        Ok(ev) => r matches Ok(pr) && exprs_view(pr.0@) == ev.0 && pr.1 == ev.1,
        Err(e) => r matches Err(pe) && pe@ == e,
    }
}

/// Parses one `expr` at position `p` of the token stream.
pub fn parse_expr(toks: &Vec<(usize, Tok, usize)>, p: usize) -> (r: Result<
    (Expr, usize),
    ParseError,
>)
    requires
        p <= toks@.len(),
    ensures
        expr_outcome(spanned_views(toks@), p as int, r),
    decreases toks@.len() - p, 0int,
{
    let ghost t = spanned_views(toks@);
    if p >= toks.len() {
        return Err(ParseError::UnexpectedEof);
    }
    let sp = &toks[p];
    match &sp.1 {
        Tok::Number(text) => Ok((Expr::Number(text.clone()), p + 1)),
        Tok::Quoted(data) => Ok((Expr::Binary(data.clone()), p + 1)),
        Tok::Nil => Ok((Expr::Atom(String::from_str("nil")), p + 1)),
        Tok::True => Ok((Expr::Atom(String::from_str("true")), p + 1)),
        Tok::False => Ok((Expr::Atom(String::from_str("false")), p + 1)),
        Tok::Colon => {
            if p + 1 >= toks.len() {
                return Err(ParseError::UnexpectedEof);
            }
            let sp2 = &toks[p + 1];
            match &sp2.1 {
                Tok::Unquoted(name) => Ok((Expr::Atom(name.clone()), p + 2)),
                Tok::Quoted(name) => Ok((Expr::Atom(name.clone()), p + 2)),
                Tok::Nil => Ok((Expr::Atom(String::from_str("nil")), p + 2)),
                Tok::True => Ok((Expr::Atom(String::from_str("true")), p + 2)),
                Tok::False => Ok((Expr::Atom(String::from_str("false")), p + 2)),
                Tok::Access => Ok((Expr::Atom(String::from_str("Access")), p + 2)),
                Tok::Kernel => Ok((Expr::Atom(String::from_str("Kernel")), p + 2)),
                Tok::LCurly => {
                    if p + 2 >= toks.len() {
                        return Err(ParseError::UnexpectedEof);
                    }
                    let sp3 = &toks[p + 2];
                    if matches!(&sp3.1, Tok::RCurly) {
                        Ok((Expr::Atom(String::from_str("{}")), p + 3))
                    } else {
                        Err(unexpected_at(sp3))
                    }
                },
                _ => Err(unexpected_at(sp2)),
            }
        },
        Tok::LCurly => {
            if p + 1 < toks.len() && matches!(&toks[p + 1].1, Tok::RCurly) {
                proof {
                    assert(exprs_view(Seq::<Expr>::empty()) =~= Seq::<ExprV>::empty());
                }
                Ok((Expr::Tuple { exprs: Vec::new() }, p + 2))
            } else {
                match parse_tuple_rest(toks, p + 1) {
                    Ok((es, p2)) => Ok((Expr::Tuple { exprs: es }, p2)),
                    Err(e) => Err(e),
                }
            }
        },
        Tok::LBrace => {
            if p + 1 < toks.len() && matches!(&toks[p + 1].1, Tok::RBrace) {
                proof {
                    assert(exprs_view(Seq::<Expr>::empty()) =~= Seq::<ExprV>::empty());
                }
                Ok((Expr::List { exprs: Vec::new() }, p + 2))
            } else {
                match parse_list_rest(toks, p + 1) {
                    Ok((es, p2)) => Ok((Expr::List { exprs: es }, p2)),
                    Err(e) => Err(e),
                }
            }
        },
        _ => Err(unexpected_at(sp)),
    }
}

/// Parses the elements of a nonempty tuple, through the closing `}`.
fn parse_tuple_rest(toks: &Vec<(usize, Tok, usize)>, p: usize) -> (r: Result<
    (Vec<Expr>, usize),
    ParseError,
>)
    requires
        p <= toks@.len(),
    ensures
        elems_outcome(spec_parse_tuple_rest(spanned_views(toks@), p as int), r),
    decreases toks@.len() - p, 2int,
{
    let ghost t = spanned_views(toks@);
    match parse_expr(toks, p) {
        Err(e) => Err(e),
        Ok((e, p2)) => {
            proof {
                lemma_parse_expr_advances(t, p as int);
            }
            if p2 >= toks.len() {
                return Err(ParseError::UnexpectedEof);
            }
            let sp = &toks[p2];
            if matches!(&sp.1, Tok::RCurly) {
                let mut es: Vec<Expr> = Vec::new();
                es.push(e);
                proof {
                    assert(es@ =~= seq![e]);
                    crate::parser::ast::lemma_exprs_view_singleton(e);
                }
                Ok((es, p2 + 1))
            } else if matches!(&sp.1, Tok::Comma) {
                match parse_tuple_rest(toks, p2 + 1) {
                    Ok((mut es, p3)) => {
                        let ghost tail = es@;
                        es.insert(0, e);
                        proof {
                            assert(es@ =~= seq![e] + tail);
                            crate::parser::ast::lemma_exprs_view_cons(e, tail);
                        }
                        Ok((es, p3))
                    },
                    Err(e2) => Err(e2),
                }
            } else {
                Err(unexpected_at(sp))
            }
        },
    }
}

/// Parses one list element: the sugar form first, a plain `expr` otherwise.
fn parse_list_elem(toks: &Vec<(usize, Tok, usize)>, p: usize) -> (r: Result<
    (Expr, usize),
    ParseError,
>)
    requires
        p <= toks@.len(),
    ensures
        match spec_parse_list_elem(spanned_views(toks@), p as int) {
            Ok(ev) => r matches Ok(pr) && pr.0@ == ev.0 && pr.1 == ev.1,
            Err(e) => r matches Err(pe) && pe@ == e,
        },
    decreases toks@.len() - p, 1int,
{
    let ghost t = spanned_views(toks@);
    let n = toks.len();
    if p < n && n - p > 1 && matches!(&toks[p].1, Tok::Unquoted(_)) && matches!(
        &toks[p + 1].1,
        Tok::Colon,
    ) {
        let name = match &toks[p].1 {
            Tok::Unquoted(name) => name.clone(),
            _ => {
                proof {
                    assert(false);
                }
                String::new()
            },
        };
        match parse_expr(toks, p + 2) {
            Ok((e, p2)) => {
                let ghost ev = expr_view(e);
                let key = Expr::Atom(name);
                let ghost kv = expr_view(key);
                let mut es: Vec<Expr> = Vec::new();
                es.push(key);
                es.push(e);
                proof {
                    assert(es@ =~= seq![key] + seq![e]);
                    crate::parser::ast::lemma_exprs_view_cons(key, seq![e]);
                    crate::parser::ast::lemma_exprs_view_singleton(e);
                    assert(exprs_view(es@) =~= seq![kv, ev]);
                }
                Ok((Expr::Tuple { exprs: es }, p2))
            },
            Err(e) => Err(e),
        }
    } else {
        parse_expr(toks, p)
    }
}

/// Parses the elements of a nonempty list, through the closing `]`.
fn parse_list_rest(toks: &Vec<(usize, Tok, usize)>, p: usize) -> (r: Result<
    (Vec<Expr>, usize),
    ParseError,
>)
    requires
        p <= toks@.len(),
    ensures
        elems_outcome(spec_parse_list_rest(spanned_views(toks@), p as int), r),
    decreases toks@.len() - p, 2int,
{
    let ghost t = spanned_views(toks@);
    match parse_list_elem(toks, p) {
        Err(e) => Err(e),
        Ok((e, p2)) => {
            proof {
                lemma_parse_list_elem_advances(t, p as int);
            }
            if p2 >= toks.len() {
                return Err(ParseError::UnexpectedEof);
            }
            let sp = &toks[p2];
            if matches!(&sp.1, Tok::RBrace) {
                let mut es: Vec<Expr> = Vec::new();
                es.push(e);
                proof {
                    assert(es@ =~= seq![e]);
                    crate::parser::ast::lemma_exprs_view_singleton(e);
                }
                Ok((es, p2 + 1))
            } else if matches!(&sp.1, Tok::Comma) {
                match parse_list_rest(toks, p2 + 1) {
                    Ok((mut es, p3)) => {
                        let ghost tail = es@;
                        es.insert(0, e);
                        proof {
                            assert(es@ =~= seq![e] + tail);
                            crate::parser::ast::lemma_exprs_view_cons(e, tail);
                        }
                        Ok((es, p3))
                    },
                    Err(e2) => Err(e2),
                }
            } else {
                Err(unexpected_at(sp))
            }
        },
    }
}

/// Parses a whole token stream: one `expr`, with nothing allowed to follow.
pub fn parse_toks(toks: &Vec<(usize, Tok, usize)>) -> (r: Result<Expr, ParseError>)
    ensures
        match spec_parse_toks(spanned_views(toks@)) {
            Ok(ev) => r matches Ok(e) && e@ == ev,
            Err(pe) => r matches Err(x) && x@ == pe,
        },
{
    let ghost t = spanned_views(toks@);
    match parse_expr(toks, 0) {
        Err(e) => Err(e),
        Ok((e, p)) => {
            if p >= toks.len() {
                Ok(e)
            } else {
                let sp = &toks[p];
                Err(ParseError::Trailing { tok: sp.1.clone(), start: sp.0, end: sp.2 })
            }
        },
    }
}

} // verus!
