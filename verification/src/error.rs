//! What can go wrong while translating.

use vstd::prelude::*;

use crate::token::{SpecToken, Token};

verus! {

/// Why a translation stopped.
#[derive(Debug, Clone)]
pub enum Error {
    /// The tokens ended where more were needed.
    Eof,
    /// A token that does not fit where it stands.
    Unexpected(Token),
    /// A name used as a type is not a known type.
    UnknownType(Vec<char>),
    /// A `typedef` gives a name that is already a type.
    DuplicateType(Vec<char>),
    /// A `return` expression has no `;`.
    MissingSemicolon,
    /// A value of the first type cannot be turned into the second.
    NotConvertible(usize, usize),
    /// An expression does not reduce to a single value.
    NoOverload,
    /// Matching an operator looked past the last operator.
    OperatorOutOfRange,
    /// A number that is not a 128-bit integer.
    BadNumber(Vec<char>),
    /// A `#` directive that is not known.
    UnknownDirective(Vec<char>),
    /// `#ifdef` or `#ifndef` with other than one name.
    TooManyOperands,
    /// A conditional directive that no newline ends.
    NoNewline,
}

/// The mathematical value of an [`Error`].
pub enum SpecError {
    Eof,
    Unexpected(SpecToken),
    UnknownType(Seq<char>),
    DuplicateType(Seq<char>),
    MissingSemicolon,
    NotConvertible(usize, usize),
    NoOverload,
    OperatorOutOfRange,
    BadNumber(Seq<char>),
    UnknownDirective(Seq<char>),
    TooManyOperands,
    NoNewline,
}

impl View for Error {
    type V = SpecError;

    open spec fn view(&self) -> SpecError {
        match self {
            Error::Eof => SpecError::Eof,
            Error::Unexpected(t) => SpecError::Unexpected(t@),
            Error::UnknownType(s) => SpecError::UnknownType(s@),
            Error::DuplicateType(s) => SpecError::DuplicateType(s@),
            Error::MissingSemicolon => SpecError::MissingSemicolon,
            Error::NotConvertible(a, b) => SpecError::NotConvertible(*a, *b),
            Error::NoOverload => SpecError::NoOverload,
            Error::OperatorOutOfRange => SpecError::OperatorOutOfRange,
            Error::BadNumber(s) => SpecError::BadNumber(s@),
            Error::UnknownDirective(s) => SpecError::UnknownDirective(s@),
            Error::TooManyOperands => SpecError::TooManyOperands,
            Error::NoNewline => SpecError::NoNewline,
        }
    }
}

} // verus!
