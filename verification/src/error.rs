use vstd::prelude::*;

verus! {

/// Why a hex-encoded entity secret failed to decode.
#[derive(Debug, Clone, Copy, PartialEq, Eq, Structural)]
pub enum HexDecodeError {
    /// The input held an odd number of digits.
    OddLength,
    /// The byte at `index` is not a hex digit, and every byte before it is.
    InvalidHexCharacter { index: usize },
}

/// The closed set of failures a client operation can produce.
///
/// Every fallible step surfaces its error immediately: there is no retry,
/// no partial result, and no silent recovery.
#[derive(Debug, Clone, Copy, PartialEq, Eq, Structural)]
pub enum CircleError {
    /// The service answered with a non-success HTTP status; the raw code is kept.
    ResponseStatusCodeError(u16),
    /// A success response carried a body that does not match the expected shape.
    DeserializationError,
    /// The hex-encoded entity secret is malformed.
    FromHexError(HexDecodeError),
    /// Key parsing or encryption failed inside the cryptographic backend.
    RsaError,
    /// The transport failed before any status code was seen; opaque to the library.
    UnknownRequestError,
}

} // verus!
