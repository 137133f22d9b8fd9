//! Trusted boundary to the BLS12-381 primitives.
//!
//! Keys are carried through the library in their canonical byte form: a
//! secret key as its 32 big-endian scalar bytes, a public key as its 48
//! compressed point bytes.  Every call into the curve library converts from
//! and back to those bytes, so the contracts below speak of byte strings
//! only.

use vstd::prelude::*;

verus! {

/// Whether the 32 bytes are the canonical form of a valid, in-range scalar;
/// names the success of `blsttc::SecretKey::from_bytes`.
pub uninterp spec fn bls_sk_ok(b: Seq<u8>) -> bool;

/// Whether the 48 bytes are a valid compressed curve point; names the
/// success of `blsttc::PublicKey::from_bytes`.
pub uninterp spec fn bls_pk_ok(b: Seq<u8>) -> bool;

/// The public key belonging to a secret key; names
/// `blsttc::SecretKey::public_key`.
pub uninterp spec fn bls_pk_of(sk: Seq<u8>) -> Seq<u8>;

/// The child secret key at a derivation index; names
/// `blsttc::SecretKey::derive_child`.
pub uninterp spec fn bls_child_sk(sk: Seq<u8>, idx: Seq<u8>) -> Seq<u8>;

/// The child public key at a derivation index; names
/// `blsttc::PublicKey::derive_child`.
pub uninterp spec fn bls_child_pk(pk: Seq<u8>, idx: Seq<u8>) -> Seq<u8>;

/// What decrypting a ciphertext with a secret key yields: `None` when the
/// bytes are not a valid ciphertext, otherwise the recovered plaintext;
/// names `blsttc::SecretKey::decrypt` on the parsed ciphertext.
pub uninterp spec fn bls_decrypt_spec(sk: Seq<u8>, ct: Seq<u8>) -> Option<Seq<u8>>;

/// Relies on `blsttc::SecretKey::from_bytes`: accepts exactly the canonical
/// 32-byte big-endian forms of in-range scalars.
#[verifier::external_body]
pub(crate) fn bls_sk_valid(b: &Vec<u8>) -> (r: bool)
    ensures
        r == bls_sk_ok(b@),
        r ==> b@.len() == 32,
{
    match <[u8; 32]>::try_from(b.as_slice()) {
        Ok(arr) => blsttc::SecretKey::from_bytes(arr).is_ok(),
        Err(_) => false,
    }
}

/// Relies on `blsttc::PublicKey::from_bytes`: accepts exactly the valid
/// compressed 48-byte points.
#[verifier::external_body]
pub(crate) fn bls_pk_valid(b: &Vec<u8>) -> (r: bool)
    ensures
        r == bls_pk_ok(b@),
        r ==> b@.len() == 48,
{
    match <[u8; 48]>::try_from(b.as_slice()) {
        Ok(arr) => blsttc::PublicKey::from_bytes(arr).is_ok(),
        Err(_) => false,
    }
}

/// Relies on `blsttc::SecretKey::public_key`: the generator times the
/// scalar, returned in its canonical compressed form.
#[verifier::external_body]
pub(crate) fn bls_public_key(sk: &Vec<u8>) -> (r: Vec<u8>)
    requires
        bls_sk_ok(sk@),
    ensures
        r@ == bls_pk_of(sk@),
        r@.len() == 48,
        bls_pk_ok(r@),
{
    let arr: [u8; 32] = sk.as_slice().try_into().expect("validity implies length 32");
    let key = blsttc::SecretKey::from_bytes(arr).expect("caller established validity");
    key.public_key().to_bytes().to_vec()
}

/// Relies on `blsttc::SecretKey::derive_child`: the child secret is the
/// parent scalar times a scalar drawn from the index, so taking the public
/// key of the child lands on the parent public key's child at the same
/// index.  The result is a valid scalar in canonical form.
#[verifier::external_body]
pub(crate) fn bls_derive_child_sk(sk: &Vec<u8>, idx: &Vec<u8>) -> (r: Vec<u8>)
    requires
        bls_sk_ok(sk@),
    ensures
        r@ == bls_child_sk(sk@, idx@),
        r@.len() == 32,
        bls_sk_ok(r@),
        bls_pk_of(r@) == bls_child_pk(bls_pk_of(sk@), idx@),
{
    let arr: [u8; 32] = sk.as_slice().try_into().expect("validity implies length 32");
    let key = blsttc::SecretKey::from_bytes(arr).expect("caller established validity");
    key.derive_child(idx.as_slice()).to_bytes().to_vec()
}

/// Relies on `blsttc::PublicKey::derive_child`: the parent point times the
/// index scalar, a valid point in compressed form.
#[verifier::external_body]
pub(crate) fn bls_derive_child_pk(pk: &Vec<u8>, idx: &Vec<u8>) -> (r: Vec<u8>)
    requires
        bls_pk_ok(pk@),
    ensures
        r@ == bls_child_pk(pk@, idx@),
        r@.len() == 48,
        bls_pk_ok(r@),
{
    let arr: [u8; 48] = pk.as_slice().try_into().expect("validity implies length 48");
    let key = blsttc::PublicKey::from_bytes(arr).expect("caller established validity");
    key.derive_child(idx.as_slice()).to_bytes().to_vec()
}

/// Relies on `blsttc::PublicKey::encrypt`: the ciphertext is randomized, so
/// nothing names it; what holds of every outcome is that any secret key
/// whose public key is the recipient recovers the plaintext.  The message
/// must hold at least one byte: the wire form of an empty message is 144
/// bytes, which `Ciphertext::from_bytes` rejects, so an empty message
/// would not decrypt.
#[verifier::external_body]
pub(crate) fn bls_encrypt(pk: &Vec<u8>, msg: &Vec<u8>) -> (r: Vec<u8>)
    requires
        bls_pk_ok(pk@),
        msg@.len() >= 1,
    ensures
        forall|s: Seq<u8>| bls_pk_of(s) == pk@ ==> #[trigger] bls_decrypt_spec(s, r@) == Some(msg@),
{
    let arr: [u8; 48] = pk.as_slice().try_into().expect("validity implies length 48");
    let key = blsttc::PublicKey::from_bytes(arr).expect("caller established validity");
    key.encrypt(msg.as_slice()).to_bytes()
}

/// Relies on `blsttc::SecretKey::decrypt` after `Ciphertext::from_bytes`:
/// deterministic in the key and ciphertext bytes; `None` exactly when the
/// bytes do not verify as a ciphertext.
#[verifier::external_body]
pub(crate) fn bls_decrypt(sk: &Vec<u8>, ct: &Vec<u8>) -> (r: Option<Vec<u8>>)
    requires
        bls_sk_ok(sk@),
    ensures
        match r {
            Some(p) => bls_decrypt_spec(sk@, ct@) == Some(p@),
            None => bls_decrypt_spec(sk@, ct@) is None,
        },
{
    let arr: [u8; 32] = sk.as_slice().try_into().expect("validity implies length 32");
    let key = blsttc::SecretKey::from_bytes(arr).expect("caller established validity");
    let parsed = match blsttc::Ciphertext::from_bytes(ct.as_slice()) {
        Ok(c) => c,
        Err(_) => return None,
    };
    key.decrypt(&parsed)
}

/// Relies on `blsttc::SecretKey::random`: a freshly drawn valid scalar.
#[verifier::external_body]
pub(crate) fn bls_random_sk() -> (r: Vec<u8>)
    ensures
        r@.len() == 32,
        bls_sk_ok(r@),
{
    blsttc::SecretKey::random().to_bytes().to_vec()
}

} // verus!
