//! The error taxonomy of the library.

use vstd::prelude::*;

verus! {

/// One kind for every way an operation on an Ark can fail.
#[derive(Clone, Copy, Debug, PartialEq, Eq, Structural)]
pub enum ArkError {
    /// A Bech32 string, mnemonic, header or wire payload was malformed.
    BadEncoding,
    /// A register, scratchpad or pointer that was queried does not exist.
    NotFound,
    /// A create was attempted against an address that is already populated.
    AlreadyExists,
    /// An update was attempted on a finalized pointer or immutable scratchpad.
    Immutable,
    /// A read or update ran against a tombstoned scratchpad.
    Retired,
    /// A decryption was attempted with a key outside the recipient set.
    WrongRecipient,
    /// A ciphertext was rejected or an inner decryption was unusable.
    CryptoFailure,
    /// A key presented for an operation is not the current authoritative one.
    AuthorityMismatch,
    /// A manifest's ark address differs from the Ark operated on.
    ManifestMismatch,
    /// The storage capability itself reported a failure.
    NetworkError,
    /// A structural invariant did not hold, e.g. an empty keyring history.
    InvariantViolation,
}

impl ArkError {
    /// A short human-readable description of the error kind.
    pub fn message(&self) -> (r: &'static str)
        ensures r@.len() > 0,
    {
        proof {
            reveal_strlit("bad encoding");
            reveal_strlit("not found");
            reveal_strlit("already exists");
            reveal_strlit("immutable");
            reveal_strlit("retired");
            reveal_strlit("no matching key");
            reveal_strlit("decryption failed");
            reveal_strlit("authority mismatch");
            reveal_strlit("manifest mismatch");
            reveal_strlit("network error");
            reveal_strlit("invariant violation");
        }
        match self {
            ArkError::BadEncoding => "bad encoding",
            ArkError::NotFound => "not found",
            ArkError::AlreadyExists => "already exists",
            ArkError::Immutable => "immutable",
            ArkError::Retired => "retired",
            ArkError::WrongRecipient => "no matching key",
            ArkError::CryptoFailure => "decryption failed",
            ArkError::AuthorityMismatch => "authority mismatch",
            ArkError::ManifestMismatch => "manifest mismatch",
            ArkError::NetworkError => "network error",
            ArkError::InvariantViolation => "invariant violation",
        }
    }
}

} // verus!
