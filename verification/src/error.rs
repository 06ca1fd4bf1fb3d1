//! The error taxonomy of the reader.
//!
//! A `MismatchedToken` raised before any input byte has been consumed is
//! recoverable: the token engine rewinds its lookahead and tries the next
//! grammar alternative. Every other failure, and a `MismatchedToken` raised
//! after part of a construct has been consumed, is fatal and surfaces to the
//! caller unchanged.

use vstd::prelude::*;

use crate::token::TokenKind;


verus! {

/// A decoding failure, reported like an I/O error kind of the byte layer.
#[derive(Clone, Copy, PartialEq, Eq, Debug, Structural)]
pub enum IoErrorKind {
    /// A byte sequence that is not a valid character in the detected encoding.
    InvalidData,
    /// Any other failure of a byte source; never produced by this crate.
    Other,
}

/// A violation of the grammar or of well-formedness.
#[derive(Clone, Copy, PartialEq, Eq, Debug, Structural)]
pub enum SyntaxError {
    /// An expected token was absent at the current position.
    MismatchedToken(TokenKind),
    /// End of input was reached inside a delimited region before its
    /// closing punctuation appeared.
    UnclosedDelimiter(TokenKind),
    /// A structural mismatch, such as an end tag whose name does not match
    /// the open element.
    UnexpectedDelimiter(TokenKind),
    /// Input ended where a required construct was expected.
    UnexpectedEof,
}

/// Any failure of the reader.
#[derive(Clone, Copy, PartialEq, Eq, Debug, Structural)]
pub enum Error {
    /// A failure of the byte layer.
    Io(IoErrorKind),
    /// A violation of the grammar or of well-formedness.
    Syntax(SyntaxError),
}

} // verus!
