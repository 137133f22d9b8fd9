//! Trusted boundary to the mnemonic phrase codec and the master-key
//! derivation standard.

use vstd::prelude::*;
use sn_curv::elliptic::curves::ECScalar;

verus! {

/// Whether a phrase is a well-formed 24-word English mnemonic with a good
/// checksum; names the success of `bip39::Mnemonic::parse_normalized`
/// together with the word count being 24.
pub uninterp spec fn mnemonic_ok(phrase: Seq<char>) -> bool;

/// The 64-byte seed a phrase stretches to; names
/// `bip39::Mnemonic::to_seed_normalized` with an empty passphrase.
pub uninterp spec fn seed_of_mnemonic(phrase: Seq<char>) -> Seq<u8>;

/// The master secret scalar a seed derives to; names
/// `sn_bls_ckd::derive_master_sk`, which guarantees a valid, non-zero
/// scalar in canonical 32-byte big-endian form.
pub uninterp spec fn master_scalar_of(seed: Seq<u8>) -> Seq<u8>;

/// Relies on `bip39::Mnemonic::generate` with 24 words: its text parses
/// back as a well-formed 24-word mnemonic.  The phrase is random, so
/// nothing more is named of it.
#[verifier::external_body]
pub(crate) fn generate_mnemonic_phrase() -> (r: String)
    ensures
        mnemonic_ok(r@),
{
    bip39::Mnemonic::generate(bip39::WordCount::Words24)
        .expect("24 is a supported word count")
        .to_string()
}

/// Relies on `bip39::Mnemonic::parse_normalized` and `to_seed_normalized`:
/// accepts exactly the well-formed 24-word phrases and stretches them to a
/// 64-byte seed depending on the phrase alone.
#[verifier::external_body]
pub(crate) fn mnemonic_to_seed(phrase: &str) -> (r: Option<Vec<u8>>)
    ensures
        match r {
            Some(seed) => mnemonic_ok(phrase@) && seed@ == seed_of_mnemonic(phrase@)
                && seed@.len() == 64,
            None => !mnemonic_ok(phrase@),
        },
{
    match bip39::Mnemonic::parse_normalized(phrase) {
        Ok(m) => {
            if m.word_count() != 24 {
                return None;
            }
            Some(m.to_seed_normalized("").to_vec())
        }
        Err(_) => None,
    }
}

/// Relies on `sn_bls_ckd::derive_master_sk`: for a seed of at least 32
/// bytes it returns a valid, non-zero scalar, depending on the seed alone;
/// its canonical serialization is accepted by `blsttc::SecretKey::from_bytes`.
#[verifier::external_body]
pub(crate) fn derive_master_scalar(seed: &Vec<u8>) -> (r: Vec<u8>)
    requires
        seed@.len() >= 32,
    ensures
        r@ == master_scalar_of(seed@),
        r@.len() == 32,
        crate::bls::bls_sk_ok(r@),
{
    let scalar = sn_bls_ckd::derive_master_sk(seed.as_slice())
        .expect("a seed of 32 or more bytes derives");
    scalar.serialize().to_vec()
}

} // verus!
