//! The term model: the closed set of parseable values and the error type.

use vstd::prelude::*;

verus! {

/// A parsed data value of the term language.
#[derive(Debug, PartialEq, Eq)]
pub enum Term {
    /// Placeholder produced by combinators that consume input but carry no
    /// semantic value (skipped whitespace, matched delimiters).
    Empty,
    /// The empty-list literal.
    Nil,
    /// A signed integer literal.
    Number { v: i32 },
    /// A string literal.
    GLString { s: String },
    /// A boolean literal.
    Boolean { b: bool },
    /// A pair cell, the building block of lists. The sub-terms are owned
    /// exclusively by the cell, so every term is finite and acyclic.
    Cons { car: Box<Term>, cdr: Box<Term> },
}

/// A parse failure, carrying a human-readable diagnostic.
#[derive(Debug, PartialEq, Eq)]
pub enum ParseError {
    Generic { msg: String },
}

/// The result of a successful combinator application: the parsed term and the
/// unconsumed remainder, a view into the original input.
#[derive(Debug, PartialEq, Eq)]
pub struct PartialParse<'a> {
    pub term: Term,
    pub rest: &'a str,
}

/// What every parser returns when applied to an input slice.
pub type ParseResult<'a> = Result<PartialParse<'a>, ParseError>;

/// The diagnostic a parse error carries.
pub open spec fn error_msg(e: ParseError) -> Seq<char> {
    match e {
        ParseError::Generic { msg } => msg@,
    }
}

} // verus!
