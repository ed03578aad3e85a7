//! Positions in source text and the errors the front end reports, each error
//! always paired with the position at which it was detected.

pub mod position;

pub use position::Position;

use crate::eureka::token::{SpecToken, Token};
use vstd::prelude::*;

verus! {

/// What went wrong, without user-facing formatting: a closed set of lexical
/// and syntactic faults.
#[derive(Clone, Debug, Eq, Hash, PartialEq)]
pub enum Error {
    /// A nested block comment went past the fixed depth bound.
    ExceededMaximumNestingLevel,
    /// A required piece of input of the named classification was absent.
    Expected(&'static str),
    /// A specific expected token was absent.
    ExpectedToken(Token),
    /// A required token of the named classification was absent.
    Missing(&'static str),
    /// A specific expected token was absent.
    MissingToken(Token),
    /// Input of the named classification stood where none was allowed.
    Unexpected(&'static str),
    /// The input held a character outside the accepted set.
    UnexpectedChar(char),
    /// The input ended where more was required.
    UnexpectedEndOfFile,
    /// A token remained after a complete parse.
    UnexpectedToken(Token),
}

/// The mathematical value of an [`Error`]: text payloads as character
/// sequences, tokens as their models.
pub enum SpecError {
    ExceededMaximumNestingLevel,
    Expected(Seq<char>),
    ExpectedToken(SpecToken),
    Missing(Seq<char>),
    MissingToken(SpecToken),
    Unexpected(Seq<char>),
    UnexpectedChar(char),
    UnexpectedEndOfFile,
    UnexpectedToken(SpecToken),
}

impl View for Error {
    type V = SpecError;

    open spec fn view(&self) -> SpecError {
        match self {
            Error::ExceededMaximumNestingLevel => SpecError::ExceededMaximumNestingLevel,
            Error::Expected(s) => SpecError::Expected(s@),
            Error::ExpectedToken(t) => SpecError::ExpectedToken(t@),
            Error::Missing(s) => SpecError::Missing(s@),
            Error::MissingToken(t) => SpecError::MissingToken(t@),
            Error::Unexpected(s) => SpecError::Unexpected(s@),
            Error::UnexpectedChar(c) => SpecError::UnexpectedChar(*c),
            Error::UnexpectedEndOfFile => SpecError::UnexpectedEndOfFile,
            Error::UnexpectedToken(t) => SpecError::UnexpectedToken(t@),
        }
    }
}

/// An error paired with the position at which it was detected.
#[derive(Clone, Debug, Eq, Hash, PartialEq)]
pub struct PositionError {
    pub position: Position,
    pub error: Error,
}

impl PositionError {
    pub fn new(position: Position, error: Error) -> (r: PositionError)
        ensures
            r.position == position,
            r.error == error,
    {
        PositionError { position, error }
    }
}

} // verus!
