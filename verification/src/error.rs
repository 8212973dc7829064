//! The crate's error type: what a caller gets when an input cannot be
//! turned into a tree, or when the surrounding glue fails before parsing.

use vstd::prelude::*;

use crate::parser::grammar::{ParseErrV, ParseError};

verus! {

/// `ParseError` carries the structured parse failure; `Utf8Error` and
/// `StdIOError` stand for failures of the glue around the core — bytes that
/// are no valid text, and input that could not be obtained — which the
/// caller maps into this type.
#[derive(Debug, PartialEq)]
pub enum Error {
    Utf8Error,
    StdIOError(String),
    ParseError(ParseError),
}

/// The model of an [`Error`].
pub enum ErrorV {
    Utf8Error,
    StdIOError(Seq<char>),
    ParseError(ParseErrV),
}

impl View for Error {
    type V = ErrorV;

    open spec fn view(&self) -> ErrorV {
        match self {
            Error::Utf8Error => ErrorV::Utf8Error,
            Error::StdIOError(what) => ErrorV::StdIOError(what@),
            Error::ParseError(pe) => ErrorV::ParseError(pe@),
        }
    }
}

impl From<ParseError> for Error {
    /// A parse failure becomes the `ParseError` variant, unchanged.
    fn from(err: ParseError) -> (r: Error)
        ensures
            r@ == ErrorV::ParseError(err@),
    {
        Error::ParseError(err)
    }
}

impl vstd::std_specs::convert::FromSpecImpl<ParseError> for Error {
    open spec fn obeys_from_spec() -> bool {
        true
    }

    open spec fn from_spec(err: ParseError) -> Error {
        Error::ParseError(err)
    }
}

} // verus!
