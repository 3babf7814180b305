//! A small recursive-descent parser-combinator engine for a Lisp-like data
//! term language. Parsers are first-class values: a combinator consumes a
//! prefix of an input string and hands back either a parsed fragment plus the
//! unconsumed remainder, or a structured parse error.

pub mod combinator;
pub mod number;
pub mod parsers;
pub mod term;
