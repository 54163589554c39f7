//! Error taxonomy of the body-consumption layer.
//!
//! Every error is terminal for the operation that raised it: nothing is
//! retried internally, and a body, once claimed and failed, cannot be
//! re-consumed.

use vstd::prelude::*;

verus! {

/// Failure to negotiate a content type or charset.
#[derive(Clone, Copy, Debug, PartialEq, Eq, Structural)]
pub enum ContentTypeError {
    /// The `Content-Type` header is present but not parsable as a MIME type.
    ParseError,
    /// The `charset` parameter names no known encoding.
    UnknownEncoding,
}

/// Failure to read a header as text.
#[derive(Clone, Copy, Debug, PartialEq, Eq, Structural)]
pub enum ParseError {
    /// A header's bytes are not valid header text.
    Header,
}

/// Failure while accumulating a complete body.
#[derive(Clone, Copy, Debug, PartialEq, Eq, Structural)]
pub enum PayloadError {
    /// `Content-Length` is present but not a non-negative integer.
    UnknownLength,
    /// The accumulated bytes would exceed the active limit.
    Overflow,
    /// The chunk source reported an error.
    SourceError,
}

/// Failure while decoding a form body.
#[derive(Clone, Copy, Debug, PartialEq, Eq, Structural)]
pub enum UrlencodedError {
    /// The content type is not `application/x-www-form-urlencoded`,
    /// or its charset cannot be resolved.
    ContentType,
    /// `Content-Length` is present but not a non-negative integer.
    UnknownLength,
    /// The accumulated bytes would exceed the active limit.
    Overflow,
    /// The accumulated bytes do not decode or deserialize as a form.
    Parse,
    /// The chunk source failed while the body was accumulating.
    Payload(PayloadError),
}

/// Failure while reading a body line by line.
#[derive(Clone, Copy, Debug, PartialEq, Eq, Structural)]
pub enum ReadlinesError {
    /// A located line segment is longer than the per-line limit.
    LimitOverflow,
    /// A line's bytes do not decode under the resolved charset.
    EncodingError,
    /// The chunk source reported an error.
    SourceError,
    /// Charset negotiation failed when the decoder was constructed.
    ContentType(ContentTypeError),
}

/// Failure while parsing `Cookie` headers.
#[derive(Clone, Copy, Debug, PartialEq, Eq, Structural)]
pub enum CookieParseError {
    /// A `Cookie` header holds bytes that are not valid UTF-8.
    InvalidEncoding,
    /// A non-empty `;`-separated segment is not a well-formed cookie.
    MalformedCookie,
}

} // verus!
