//! Syntax errors, shared by the lexer and the parser.

use vstd::prelude::*;

use crate::codemap::Spanned;

verus! {

/// A spanned syntax error.
pub type Error = Spanned<Error_>;

/// Syntax error.
#[derive(Clone, Copy, Debug, PartialEq, Eq, Structural)]
pub enum Error_ {
    /// Only a single expression is expected per line. `(+ 1 2) 3` is an error
    ExpectedEndOfLine,
    /// `(+ 1 2]`
    IncorrectCloseDelimiter,
    /// The integer literal doesn't fit in 64 bits
    IntegerTooLarge,
    /// `(+ 1 2`
    UnclosedDelimiter,
    /// No known token starts with this character
    UnknownStartOfToken,
    /// `"Hello`
    UnterminatedString,
}

} // verus!
