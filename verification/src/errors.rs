use vstd::prelude::*;

verus! {

/// The error taxonomy of the protocol layer.
///
/// Decoding failures are split into three kinds: a wrong brand or truncated
/// header is a `FormatError`, an unsupported version is a `VersionError`, and
/// a malformed payload behind a well-formed header is a `FieldError`.
/// Cryptographic failures surface as `CryptoError`, except for the dedicated
/// `InsufficientFragments` and the construction-time `PolicyError` and
/// `InvalidAddress`.
#[derive(Clone, Copy, PartialEq, Eq, Structural, Debug)]
pub enum Error {
    /// Brand mismatch, or bytes too short to hold the envelope header.
    FormatError,
    /// Unsupported major version, or a minor version newer than this build.
    VersionError,
    /// A malformed or missing field inside a well-versioned payload.
    FieldError,
    /// Signature invalid, decryption failed, or fragment verification failed.
    CryptoError,
    /// Fewer capsule fragments than needed were supplied.
    InsufficientFragments,
    /// The threshold exceeds the number of destinations.
    PolicyError,
    /// An address of the wrong byte length.
    InvalidAddress,
}

} // verus!
