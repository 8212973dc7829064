//! The two halves of the core — the lexer and the grammar — and the entry
//! point that ties them together: text in, tree or structured error out.

pub mod ast;
pub mod batch;
pub mod grammar;
pub mod laws;
pub mod textlaws;
pub mod lexer;

use vstd::prelude::*;

use crate::error::{Error, ErrorV};
use crate::parser::ast::Expr;
use crate::parser::grammar::{parse_toks, spec_parse_text, ParseError};
use crate::parser::lexer::tokenize;

verus! {

/// The parser over quoted-term dump texts.
pub struct ElixirParser;

/// Parses a text expected to hold exactly one expression: the tree value,
/// or the structured error — and either exactly as [`spec_parse_text`] says.
/// The scan is lenient, as the dump format demands: a character matching
/// no lexical rule — whitespace, above all — is skipped. Parsing is a pure function of the input and
/// has no side effects; no partial tree is ever returned.
pub fn parse_quoted(input: &str) -> (r: Result<Expr, Error>)
    ensures
        match spec_parse_text(input@, false) {
            Ok(ev) => r matches Ok(e) && e@ == ev,
            Err(pe) => r matches Err(err) && err@ == ErrorV::ParseError(pe),
        },
{
    match tokenize(input, false) {
        Err(le) => Err(Error::from(ParseError::Lexical(le))),
        Ok(toks) => match parse_toks(&toks) {
            Ok(e) => Ok(e),
            Err(pe) => Err(Error::from(pe)),
        },
    }
}

/// As [`parse_quoted`], with the strict scan: the first character matching
/// no lexical rule is a lexical error instead of being skipped.
pub fn parse_quoted_strict(input: &str) -> (r: Result<Expr, Error>)
    ensures
        match spec_parse_text(input@, true) {
            Ok(ev) => r matches Ok(e) && e@ == ev,
            Err(pe) => r matches Err(err) && err@ == ErrorV::ParseError(pe),
        },
{
    match tokenize(input, true) {
        Err(le) => Err(Error::from(ParseError::Lexical(le))),
        Ok(toks) => match parse_toks(&toks) {
            Ok(e) => Ok(e),
            Err(pe) => Err(Error::from(pe)),
        },
    }
}

impl ElixirParser {
    /// Parses one dump text: [`parse_quoted`], under the parser's name.
    pub fn parse(input: &str) -> (r: Result<Expr, Error>)
        ensures
            match spec_parse_text(input@, false) {
                Ok(ev) => r matches Ok(e) && e@ == ev,
                Err(pe) => r matches Err(err) && err@ == ErrorV::ParseError(pe),
            },
    {
        parse_quoted(input)
    }
}

} // verus!
