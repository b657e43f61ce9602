//! Errors raised while lexing.

use vstd::prelude::*;

verus! {

/// Why the text of a numeric literal has no value.
#[derive(Debug, Clone, Copy, PartialEq, Eq)]
pub enum NumberFault {
    /// Nothing is left once the underscores are taken out.
    Empty,
    /// A dot without a digit on either side.
    Invalid,
    /// An integer above the largest that 32 signed bits hold.
    Overflow,
}

/// The ways in which tokenization can fail.
#[derive(Debug, Clone, Copy, PartialEq, Eq)]
pub enum LexError {
    /// The input ended where a construct needed more characters.
    UnexpectedEndOfInput,
    /// A character that starts no token.
    UnknownCharacter(char),
    /// A numeric literal whose text has no value of the token's type.
    NumberParseFailure(NumberFault),
}

} // verus!
