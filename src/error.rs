use vstd::prelude::*;

verus! {

/// Failures of the key ring and of the cipher pipeline.
#[derive(Debug, Clone, Copy, PartialEq, Eq, Structural)]
pub enum Error {
    /// Armored text is not valid base64.
    Decode,
    /// The key ring holds no entry for the requested key id.
    NotFound,
    /// A stored key does not decode to exactly the cipher's key size.
    InvalidKey,
    /// A freshly derived key id already names different key material.
    KeyCollision,
    /// A blob does not have the expected framing.
    MalformedBlob,
    /// A key id is too long to be framed in a blob.
    KeyIdTooLong,
    /// The plaintext is too long for the cipher.
    Encryption,
    /// The authentication tag does not match.
    Authentication,
    /// The authenticated payload is not valid compressed data.
    CorruptData,
    /// No home directory could be resolved.
    Config,
}

} // verus!
