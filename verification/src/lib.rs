//! Parser and canonical printer for a textual graph-pattern query fragment:
//! node descriptors, a boolean algebra over labels, open/closed property-record
//! types, and a filter-expression language. Each syntactic category has its own
//! entry point that parses a complete input string into an abstract syntax tree,
//! and every tree value has a single deterministic rendered form.
use vstd::prelude::*;

pub mod ast;
pub mod grammar;
pub mod laws;
pub mod lexer;
pub mod order;
pub mod parser;
pub mod render;

pub use crate::parser::{
    DescriptorParser, DescriptorTypeParser, ExprParser, LabelTypeParser, NodePatternParser,
    PathPatternParser, PropertyTypeParser, SimpleTypeParser,
};

verus! {

/// The one error kind: a parse (or lexing) failure, with a best-effort
/// description of the offending position. Carried for diagnostics only;
/// no behaviour depends on its contents.
#[derive(Debug, PartialEq, Eq)]
pub struct ParseError {
    /// Character position (for lexical errors) or token position (for
    /// grammatical errors) at which the failure was noticed.
    pub position: usize,
    /// A human-readable description of what went wrong.
    pub message: String,
}

/// Builds a parse error for the given position.
pub fn err_at(position: usize, msg: &str) -> (r: ParseError)
    ensures
        r.position == position,
{
    ParseError { position, message: msg.to_owned() }
}

} // verus!
