use vstd::prelude::*;

verus! {

/// Why a request was rejected. Each of these is final: appending more bytes
/// to the buffer can never turn the input into a valid request.
#[derive(Copy, Clone, Debug, PartialEq, Eq, Structural)]
pub enum Error {
    /// The method is empty, holds a byte outside the token set, or is not
    /// followed by a single space.
    Token,
    /// The request target is empty, holds a byte outside the URI set, or is
    /// not followed by a single space.
    Uri,
    /// The version is not `HTTP/1.0` or `HTTP/1.1`.
    Version,
    /// A carriage return is not followed by a line feed, or the version is
    /// followed by something other than a line ending.
    NewLine,
    /// A header name is empty, holds a byte outside the token set, or is not
    /// followed by `:`.
    HeaderName,
    /// A header value holds a control byte other than tab.
    HeaderValue,
    /// The message holds more headers than the caller's collection has room for.
    TooManyHeaders,
}

} // verus!
