//! Error definitions for the crate.
//!
//! [`Error`] names each cause in detail. [`TokenizeError`] is the coarser error that the
//! tokenizers report; [`reported_as`] is the one table that maps the first onto the second.

use crate::syntax::Token;
use vstd::prelude::*;
use vstd::std_specs::convert::FromSpecImpl;

verus! {

/// The error of `std::io`. Nothing is known of what a value holds.
#[verifier::external_type_specification]
#[verifier::external_body]
pub struct ExIoError(std::io::Error);

/// The error of `std::fmt`. Nothing is known of what a value holds.
#[verifier::external_type_specification]
#[verifier::external_body]
pub struct ExFmtError(std::fmt::Error);

/// The error of `String::from_utf8`. Nothing is known of what a value holds.
#[verifier::external_type_specification]
#[verifier::external_body]
pub struct ExFromUtf8Error(std::string::FromUtf8Error);

/// Represents the various possible errors for the crate.
#[derive(Debug)]
pub enum Error {
    /// A format string that is not `'§'` followed by one character, ex. `"§ 0"` instead of
    /// `"§0"`.
    InvalidFormatCodeString(String),
    /// A format code whose character names no format.
    NoSuchFormatCode(char),
    /// A `'§'` that no character follows.
    MissingFormatCode,
    /// A character that no HTML entity is associated with.
    NoSuchCharLiteral(char),
    /// An iterator ended before its consumer was finished.
    UnexpectedEndOfIter,
    /// The frontmatter is incomplete, malformed or entirely missing.
    IncompleteOrMissingFrontmatter,
    /// A token in a place that does not accept it.
    UnexpectedToken(Token),
    /// An I/O action failed in some way.
    Io(std::io::Error),
    /// A `std::fmt` function failed in some way.
    Fmt(std::fmt::Error),
    /// Bytes that are not valid UTF-8 were to become a string.
    Utf8(std::string::FromUtf8Error),
}

/// The errors that a tokenizer reports, whatever the format it reads.
#[derive(Debug)]
pub enum TokenizeError {
    /// A reference to a syntax item that has no definition.
    NoSuchSyntaxItem,
    /// A recognized syntax item whose shape is invalid.
    MalformedSyntaxItem,
    /// A valid syntax item in a place that does not accept it.
    UnexpectedSyntaxItem,
    /// Any other failure, by its message.
    Other(String),
    /// The line source failed to produce the next line.
    Io(std::io::Error),
    /// A text-formatting operation failed.
    Fmt(std::fmt::Error),
    /// A byte sequence could not be read as text.
    Utf8(std::string::FromUtf8Error),
}

/// The kind under which a tokenizer reports each cause.
///
/// The mapping loses detail: every fault in the shape of a syntax item, from a bad format
/// code to a missing frontmatter, is reported as malformed. Faults of the outside world keep
/// their payload.
pub open spec fn reported_as(err: Error) -> TokenizeError {
    match err {
        Error::InvalidFormatCodeString(_) => TokenizeError::MalformedSyntaxItem,
        Error::NoSuchFormatCode(_) => TokenizeError::MalformedSyntaxItem,
        Error::MissingFormatCode => TokenizeError::MalformedSyntaxItem,
        Error::UnexpectedEndOfIter => TokenizeError::MalformedSyntaxItem,
        Error::IncompleteOrMissingFrontmatter => TokenizeError::MalformedSyntaxItem,
        Error::NoSuchCharLiteral(_) => TokenizeError::NoSuchSyntaxItem,
        Error::UnexpectedToken(_) => TokenizeError::UnexpectedSyntaxItem,
        Error::Io(e) => TokenizeError::Io(e),
        Error::Fmt(e) => TokenizeError::Fmt(e),
        Error::Utf8(e) => TokenizeError::Utf8(e),
    }
}

impl From<Error> for TokenizeError {
    fn from(err: Error) -> (kind: TokenizeError) {
        match err {
            Error::InvalidFormatCodeString(_)
            | Error::NoSuchFormatCode(_)
            | Error::MissingFormatCode
            | Error::UnexpectedEndOfIter
            | Error::IncompleteOrMissingFrontmatter => TokenizeError::MalformedSyntaxItem,
            Error::NoSuchCharLiteral(_) => TokenizeError::NoSuchSyntaxItem,
            Error::UnexpectedToken(_) => TokenizeError::UnexpectedSyntaxItem,
            Error::Io(e) => TokenizeError::Io(e),
            Error::Fmt(e) => TokenizeError::Fmt(e),
            Error::Utf8(e) => TokenizeError::Utf8(e),
        }
    }
}

impl FromSpecImpl<Error> for TokenizeError {
    open spec fn obeys_from_spec() -> bool {
        true
    }

    open spec fn from_spec(err: Error) -> TokenizeError {
        reported_as(err)
    }
}

} // verus!
