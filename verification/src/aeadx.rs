//! Trusted boundary to the authenticated cipher that seals envelope
//! payloads under a one-time file key.

use vstd::prelude::*;

verus! {

/// The ciphertext sealing a plaintext under a 32-byte key; names
/// `age_core::primitives::aead_encrypt`, which is deterministic (a fixed
/// nonce for a one-time key).
pub uninterp spec fn aead_seal(key: Seq<u8>, plaintext: Seq<u8>) -> Seq<u8>;

/// What opening a ciphertext under a key yields: the plaintext when the
/// authentication tag verifies, nothing otherwise; names
/// `age_core::primitives::aead_decrypt` at the size the ciphertext implies.
pub uninterp spec fn aead_open(key: Seq<u8>, ciphertext: Seq<u8>) -> Option<Seq<u8>>;

/// Relies on `age_core::primitives::aead_encrypt`: sixteen tag bytes on top
/// of the plaintext, and `aead_decrypt` under the same key gives the
/// plaintext back.
#[verifier::external_body]
pub(crate) fn aead_encrypt_bytes(key: &Vec<u8>, plaintext: &Vec<u8>) -> (r: Vec<u8>)
    requires
        key@.len() == 32,
    ensures
        r@ == aead_seal(key@, plaintext@),
        r@.len() == plaintext@.len() + 16,
        aead_open(key@, r@) == Some(plaintext@),
{
    let arr: [u8; 32] = key.as_slice().try_into().expect("caller gave 32 bytes");
    age_core::primitives::aead_encrypt(&arr, plaintext.as_slice())
}

/// Relies on `age_core::primitives::aead_decrypt`: deterministic in the key
/// and ciphertext; the plaintext is sixteen bytes shorter.
#[verifier::external_body]
pub(crate) fn aead_decrypt_bytes(key: &Vec<u8>, ciphertext: &Vec<u8>) -> (r: Option<Vec<u8>>)
    requires
        key@.len() == 32,
        ciphertext@.len() >= 16,
    ensures
        match r {
            Some(p) => aead_open(key@, ciphertext@) == Some(p@)
                && p@.len() == ciphertext@.len() - 16,
            None => aead_open(key@, ciphertext@) is None,
        },
{
    let arr: [u8; 32] = key.as_slice().try_into().expect("caller gave 32 bytes");
    match age_core::primitives::aead_decrypt(&arr, ciphertext.len() - 16, ciphertext.as_slice()) {
        Ok(p) => Some(p),
        Err(_) => None,
    }
}

} // verus!
