//! Typed failures of the store and of the path resolver.

use vstd::prelude::*;

verus! {

/// Why a document failed to parse.
#[derive(Debug, Clone, PartialEq, Eq)]
pub enum ParseError {
    /// The text is not a well-formed document at all.
    Syntax,
    /// The text is well-formed but does not match the store's schema;
    /// `field` names the unexpected or missing field or section path.
    Schema { field: String },
}

/// Mathematical value of a [`ParseError`].
pub enum ParseErrV {
    Syntax,
    Schema { field: Seq<char> },
}

impl View for ParseError {
    type V = ParseErrV;

    open spec fn view(&self) -> ParseErrV {
        match self {
            ParseError::Syntax => ParseErrV::Syntax,
            ParseError::Schema { field } => ParseErrV::Schema { field: field@ },
        }
    }
}

/// An operation referenced an application that the store does not hold.
#[derive(Debug, Clone, PartialEq, Eq)]
pub enum LookupError {
    UnknownApplication,
}

/// The executable path handed to the resolver has no parent directory.
#[derive(Debug, Clone, PartialEq, Eq)]
pub enum PathError {
    NoParentDirectory,
}

} // verus!
