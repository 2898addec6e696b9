//! The ways in which reading or writing a multipart body fails.

use vstd::prelude::*;

verus! {

/// Why a block of header lines was rejected as malformed.
#[derive(Debug, Clone, Copy, PartialEq, Eq, Structural)]
pub enum HeaderError {
    /// A byte that no header name may hold.
    HeaderName,
    /// A byte that no header value may hold.
    HeaderValue,
    /// A carriage return that no line feed follows.
    NewLine,
    /// A malformed response status.
    Status,
    /// A byte where a token is required.
    Token,
    /// More header lines than there was room for.
    TooManyHeaders,
    /// A malformed protocol version.
    Version,
}

/// An error of this library.  Every one of them ends the call that met it: no
/// partial result is returned.
#[derive(Debug)]
pub enum Error {
    /// The headers hold no usable `Content-Type`.
    NoContentType,
    /// The `Content-Type` is not `multipart/*`.
    NotMultipart,
    /// The `Content-Type` has no boundary parameter.
    BoundaryNotSpecified,
    /// A block of header lines was incomplete or did not fit.
    PartialHeaders,
    /// The input ended inside the headers that precede the body.
    EofInMainHeaders,
    /// The input ended before the first boundary.
    EofBeforeFirstBoundary,
    /// No line terminator follows a boundary.
    NoCrLfAfterBoundary,
    /// The input ended inside the headers of a part.
    EofInPartHeaders,
    /// The input ended inside the content of a file part.
    EofInFile,
    /// The input ended inside the content of an inline part.
    EofInPart,
    /// A block of header lines was malformed.
    Httparse(HeaderError),
    /// A file name could not be decoded; the message says why.
    Decoding(String),
}

impl Clone for Error {
    fn clone(&self) -> (r: Self)
        ensures
            match *self {
                Error::Decoding(why) => r matches Error::Decoding(copy) && copy@ == why@,
                _ => r == *self,
            },
    {
        match self {
            Error::NoContentType => Error::NoContentType,
            Error::NotMultipart => Error::NotMultipart,
            Error::BoundaryNotSpecified => Error::BoundaryNotSpecified,
            Error::PartialHeaders => Error::PartialHeaders,
            Error::EofInMainHeaders => Error::EofInMainHeaders,
            Error::EofBeforeFirstBoundary => Error::EofBeforeFirstBoundary,
            Error::NoCrLfAfterBoundary => Error::NoCrLfAfterBoundary,
            Error::EofInPartHeaders => Error::EofInPartHeaders,
            Error::EofInFile => Error::EofInFile,
            Error::EofInPart => Error::EofInPart,
            Error::Httparse(why) => Error::Httparse(*why),
            Error::Decoding(why) => Error::Decoding(why.clone()),
        }
    }
}

impl Error {
    /// Whether this error says that the input ended inside the body and not
    /// behind a boundary: before the first boundary, inside the headers of a
    /// part, or inside the content of a part.
    pub open spec fn is_end_of_body(self) -> bool {
        self is EofBeforeFirstBoundary || self is EofInPartHeaders || self is EofInFile
            || self is EofInPart
    }

    /// Whether this error says that the input ended too early: inside the
    /// headers that precede the body, before the first boundary, right behind
    /// a boundary, or inside the headers or the content of a part.
    pub open spec fn is_truncation(self) -> bool {
        self is EofInMainHeaders || self is EofBeforeFirstBoundary || self is NoCrLfAfterBoundary
            || self is EofInPartHeaders || self is EofInFile || self is EofInPart
    }
}

} // verus!
