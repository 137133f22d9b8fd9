//! Bech32m text forms of typed keys.
//!
//! Each role has a fixed human-readable prefix; decoding checks the prefix
//! and the key length, and a decoded secret that fails either check is
//! zeroized before the error returns.

use vstd::prelude::*;
use crate::bls::{bls_pk_ok, bls_sk_ok};
use crate::errors::ArkError;
use crate::keys::{Bech32Public, Bech32Secret, TypedPublicKey, TypedSecretKey, fill_zero};

verus! {

/// A prefix the codec accepts: one to 83 lowercase letters.
pub open spec fn is_valid_hrp(s: Seq<char>) -> bool {
    1 <= s.len() <= 83 && forall|i: int| 0 <= i < s.len() ==> 'a' <= #[trigger] s[i] <= 'z'
}

/// The Bech32m string carrying a prefix and a byte payload; names
/// `bech32::encode` with the Bech32m checksum.
pub uninterp spec fn bech32m_of(hrp: Seq<char>, data: Seq<u8>) -> Seq<char>;

/// What decoding a string yields: the prefix (lowercase) and the payload,
/// or nothing when the string or its checksum is malformed; names
/// `bech32::decode`.
pub uninterp spec fn bech32_parse(s: Seq<char>) -> Option<(Seq<char>, Seq<u8>)>;

/// Relies on `bech32::encode::<Bech32m>`: a lowercase string that
/// `bech32::decode` maps back to exactly the prefix and payload given.
#[verifier::external_body]
pub(crate) fn bech32m_encode(hrp: &str, data: &Vec<u8>) -> (r: String)
    requires
        is_valid_hrp(hrp@),
        data@.len() <= 100,
    ensures
        r@ == bech32m_of(hrp@, data@),
        bech32_parse(r@) == Some((hrp@, data@)),
{
    let parsed = bech32::Hrp::parse(hrp).expect("caller gave a valid prefix");
    bech32::encode::<bech32::Bech32m>(parsed, data.as_slice())
        .expect("the payload is far below the code length")
}

/// Relies on `bech32::decode`: splits a well-formed string into its prefix
/// and payload, rejecting bad checksums; deterministic in the string.
#[verifier::external_body]
pub(crate) fn bech32_decode(s: &str) -> (r: Option<(String, Vec<u8>)>)
    ensures
        match r {
            Some(p) => bech32_parse(s@) == Some((p.0@, p.1@)),
            None => bech32_parse(s@) is None,
        },
{
    match bech32::decode(s) {
        Ok((hrp, data)) => Some((hrp.to_lowercase(), data)),
        Err(_) => None,
    }
}

/// Whether a string is the well-formed text of a secret key under `hrp`.
pub open spec fn parses_as_secret(s: Seq<char>, hrp: Seq<char>) -> bool {
    match bech32_parse(s) {
        Some((h, d)) => h == hrp && d.len() == 32 && bls_sk_ok(d),
        None => false,
    }
}

/// Whether a string is the well-formed text of a public key under `hrp`.
pub open spec fn parses_as_public(s: Seq<char>, hrp: Seq<char>) -> bool {
    match bech32_parse(s) {
        Some((h, d)) => h == hrp && d.len() == 48 && bls_pk_ok(d),
        None => false,
    }
}

impl<K: Bech32Secret> TypedSecretKey<K> {
    /// The Bech32m text of the secret key under the role's prefix.  Decoding
    /// that text gives back exactly this key's bytes.
    pub fn danger_to_string(&self) -> (r: String)
        ensures
            r@ == bech32m_of(K::hrp_spec(), self@),
            bech32_parse(r@) == Some((K::hrp_spec(), self@)),
            parses_as_secret(r@, K::hrp_spec()),
    {
        proof { K::hrp_valid(); }
        let bytes = self.danger_to_bytes();
        bech32m_encode(K::hrp(), &bytes)
    }

    /// Decodes a secret key of this role: succeeds exactly on strings that
    /// decode under the role's prefix to 32 valid scalar bytes.  Any other
    /// decoded payload is zeroized before the error returns.
    pub fn from_str(s: &str) -> (r: Result<Self, ArkError>)
        ensures
            match r {
                Ok(k) => parses_as_secret(s@, K::hrp_spec())
                    && bech32_parse(s@) == Some((K::hrp_spec(), k@)),
                Err(e) => e == ArkError::BadEncoding && !parses_as_secret(s@, K::hrp_spec()),
            },
    {
        match bech32_decode(s) {
            None => Err(ArkError::BadEncoding),
            Some((hrp, mut data)) => {
                if !(hrp == K::hrp().to_owned()) {
                    fill_zero(&mut data);
                    return Err(ArkError::BadEncoding);
                }
                if data.len() != 32 || !crate::bls::bls_sk_valid(&data) {
                    fill_zero(&mut data);
                    return Err(ArkError::BadEncoding);
                }
                match TypedSecretKey::try_from_bytes(data) {
                    Ok(k) => Ok(k),
                    Err(e) => Err(e),
                }
            }
        }
    }
}

impl<K: Bech32Public> TypedPublicKey<K> {
    /// The Bech32m text of the public key under the role's prefix.  Decoding
    /// that text gives back exactly this key's bytes.
    pub fn to_bech32(&self) -> (r: String)
        ensures
            r@ == bech32m_of(K::hrp_spec(), self@),
            bech32_parse(r@) == Some((K::hrp_spec(), self@)),
            parses_as_public(r@, K::hrp_spec()),
    {
        proof { K::hrp_valid(); }
        let bytes = self.to_bytes();
        bech32m_encode(K::hrp(), &bytes)
    }

    /// Decodes a public key of this role: succeeds exactly on strings that
    /// decode under the role's prefix to 48 valid point bytes.
    pub fn from_str(s: &str) -> (r: Result<Self, ArkError>)
        ensures
            match r {
                Ok(k) => parses_as_public(s@, K::hrp_spec())
                    && bech32_parse(s@) == Some((K::hrp_spec(), k@)),
                Err(e) => e == ArkError::BadEncoding && !parses_as_public(s@, K::hrp_spec()),
            },
    {
        match bech32_decode(s) {
            None => Err(ArkError::BadEncoding),
            Some((hrp, data)) => {
                if !(hrp == K::hrp().to_owned()) {
                    return Err(ArkError::BadEncoding);
                }
                if data.len() != 48 || !crate::bls::bls_pk_valid(&data) {
                    return Err(ArkError::BadEncoding);
                }
                match TypedPublicKey::try_from_bytes(data) {
                    Ok(k) => Ok(k),
                    Err(e) => Err(e),
                }
            }
        }
    }
}

} // verus!
