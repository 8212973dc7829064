//! Parser for the flattened textual encoding of quoted Elixir terms: a lexer
//! that turns a dump string into spanned tokens, and a grammar that builds a
//! tree of tuples, lists, atoms, binaries and numbers out of them.

pub mod error;
pub mod parser;
