//! The tree built from a quoted-term dump, and its mathematical model.

use vstd::prelude::*;

verus! {

/// A parsed term. `Tuple`, `List` and `Defmodule` hold fully parsed children;
/// the tree never contains raw tokens. A numeric literal is kept as its
/// captured text, checked by the lexer to denote a 64-bit float value (see
/// `parser::lexer::spec_is_float_literal`); reading it as one is left to the
/// caller, since float arithmetic has no place in this crate. `Defmodule`
/// is reserved for a top-level construct the grammar could one day set
/// apart; the base grammar keeps every delimiter form a plain `Tuple` or
/// `List` and never builds it.
#[derive(Debug, PartialEq)]
pub enum Expr {
    Tuple { exprs: Vec<Expr> },
    List { exprs: Vec<Expr> },
    Atom(String),
    Binary(String),
    Number(String),
    Defmodule { exprs: Vec<Expr> },
}

/// The model of an [`Expr`]: the same tree over `Seq<char>`.
pub enum ExprV {
    Tuple { exprs: Seq<ExprV> },
    List { exprs: Seq<ExprV> },
    Atom(Seq<char>),
    Binary(Seq<char>),
    Number(Seq<char>),
    Defmodule { exprs: Seq<ExprV> },
}

/// The models of a sequence of children, in order.
pub open spec fn exprs_view(es: Seq<Expr>) -> Seq<ExprV>
    decreases es,
{
    if es.len() == 0 {
        Seq::empty()
    } else {
        seq![expr_view(es[0])] + exprs_view(es.subrange(1, es.len() as int))
    }
}

/// The model of one tree.
pub open spec fn expr_view(e: Expr) -> ExprV
    decreases e,
{
    match e {
        Expr::Tuple { exprs } => ExprV::Tuple { exprs: exprs_view(exprs@) },
        Expr::List { exprs } => ExprV::List { exprs: exprs_view(exprs@) },
        Expr::Atom(name) => ExprV::Atom(name@),
        Expr::Binary(data) => ExprV::Binary(data@),
        Expr::Number(text) => ExprV::Number(text@),
        Expr::Defmodule { exprs } => ExprV::Defmodule { exprs: exprs_view(exprs@) },
    }
}

impl View for Expr {
    type V = ExprV;

    open spec fn view(&self) -> ExprV {
        expr_view(*self)
    }
}

/// Putting one tree in front of a sequence of children puts its model in
/// front of theirs.
pub proof fn lemma_exprs_view_cons(e: Expr, es: Seq<Expr>)
    ensures
        exprs_view(seq![e] + es) == seq![expr_view(e)] + exprs_view(es),
{
    let s = seq![e] + es;
    assert(s[0] == e);
    assert(s.subrange(1, s.len() as int) =~= es);
}

/// No children, no models.
pub proof fn lemma_exprs_view_empty()
    ensures
        exprs_view(Seq::<Expr>::empty()) == Seq::<ExprV>::empty(),
{
}

/// One child, one model.
pub proof fn lemma_exprs_view_singleton(e: Expr)
    ensures
        exprs_view(seq![e]) == seq![expr_view(e)],
{
    let s = seq![e];
    assert(s.subrange(1, 1) =~= Seq::<Expr>::empty());
    lemma_exprs_view_empty();
    assert(exprs_view(s) =~= seq![expr_view(e)]);
}

} // verus!
