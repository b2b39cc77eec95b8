use vstd::prelude::*;

verus! {

/// A terminal decode failure: each variant names the decoding expectation
/// that the input buffer failed to meet.
#[derive(Clone, Copy, Debug, PartialEq, Eq, Structural)]
pub enum ParseError {
    /// The buffer ends before the bytes of a length field.
    TruncatedLength,
    /// The buffer ends before the region a decoded length promises.
    TruncatedBody,
    /// The record's major version is not 3.
    UnsupportedVersion,
    /// The record's content type is not 22 (handshake).
    NotHandshake,
    /// The handshake message is not a ClientHello.
    NotClientHello,
    /// The ClientHello's client version does not begin with 3.
    UnsupportedClientVersion,
    /// A hostname entry holds bytes that are not valid UTF-8.
    NotUtf8,
    /// A hostname entry is longer than 255 bytes.
    TooLong,
    /// A hostname entry holds a character outside the permitted set.
    IllegalChar,
}

} // verus!
