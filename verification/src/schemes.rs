//! The two encryption schemes of the library.
//!
//! The default scheme encrypts to a single recipient; its ciphertext is
//! the wire form.  The envelope scheme wraps a one-time file key for many
//! recipients; it lives in the envelope module and is named here.

use vstd::prelude::*;
use crate::bls::{bls_decrypt, bls_decrypt_spec, bls_encrypt, bls_pk_of, bls_pk_ok};
use crate::errors::ArkError;
use crate::keys::{TypedPublicKey, TypedSecretKey};

verus! {

/// How the default, single-recipient scheme can fail.
#[derive(Clone, Copy, Debug, PartialEq, Eq, Structural)]
pub enum DefaultEncryptionSchemeError {
    /// The ciphertext did not decrypt.
    DecryptionFailed,
    /// The bytes did not verify as a ciphertext at all.
    CiphertextVerificationFailed,
}

/// The single-recipient scheme: the recipient's key encrypts, its secret
/// twin decrypts, the ciphertext is the wire form.
pub struct DefaultEncryptionScheme;

impl DefaultEncryptionScheme {
    /// Encrypts to one recipient.  Any secret key whose public half is
    /// the recipient recovers the plaintext.  The wire form carries at
    /// least one payload byte, so the plaintext must be non-empty.
    pub fn encrypt<K>(recipient: &TypedPublicKey<K>, plaintext: &Vec<u8>) -> (r: Vec<u8>)
        requires
            plaintext@.len() >= 1,
        ensures
            forall|sk: Seq<u8>| bls_pk_of(sk) == recipient@
                ==> #[trigger] bls_decrypt_spec(sk, r@) == Some(plaintext@),
    {
        let pk = recipient.to_bytes();
        bls_encrypt(&pk, plaintext)
    }

    /// Decrypts with one secret key, exactly as the model says.
    pub fn decrypt<K>(key: &TypedSecretKey<K>, ciphertext: &Vec<u8>)
        -> (r: Result<Vec<u8>, DefaultEncryptionSchemeError>)
        ensures
            match r {
                Ok(p) => bls_decrypt_spec(key@, ciphertext@) == Some(p@),
                Err(e) => bls_decrypt_spec(key@, ciphertext@) is None
                    && e == DefaultEncryptionSchemeError::DecryptionFailed,
            },
    {
        let mut sk = key.danger_to_bytes();
        let attempt = bls_decrypt(&sk, ciphertext);
        crate::keys::fill_zero(&mut sk);
        match attempt {
            Some(p) => Ok(p),
            None => Err(DefaultEncryptionSchemeError::DecryptionFailed),
        }
    }
}

/// How the multi-recipient envelope scheme can fail.
#[derive(Clone, Copy, Debug, PartialEq, Eq, Structural)]
pub enum AgeError {
    /// Sealing failed.
    EncryptionError,
    /// Opening failed.
    DecryptionError,
}

/// The multi-recipient envelope scheme: a name for the envelope module's
/// seal and open, kept so callers can speak of the scheme as a value.
pub struct AgeEncryptionScheme;

impl AgeEncryptionScheme {
    /// Seals a plaintext to many recipients, refusing a recipient that is
    /// not a valid public key; see the envelope module for the exact
    /// contract of the sealed envelope.
    pub fn encrypt(recipients: &Vec<Vec<u8>>, plaintext: &Vec<u8>)
        -> (r: Result<crate::envelope::Envelope, AgeError>)
        ensures
            match r {
                Ok(env) => forall|sk: Seq<u8>| #[trigger] env.opens_to(sk) == (
                    if crate::envelope::pk_views(recipients@).contains(bls_pk_of(sk)) {
                        Ok::<Seq<u8>, ArkError>(plaintext@)
                    } else {
                        Err::<Seq<u8>, ArkError>(ArkError::WrongRecipient)
                    }
                ),
                Err(e) => e == AgeError::EncryptionError
                    && exists|i: int| 0 <= i < recipients@.len()
                        && !bls_pk_ok((#[trigger] recipients@[i])@),
            },
    {
        let mut i: usize = 0;
        while i < recipients.len()
            invariant
                i <= recipients@.len(),
                forall|j: int| 0 <= j < i ==> bls_pk_ok((#[trigger] recipients@[j])@),
            decreases recipients@.len() - i,
        {
            if !crate::bls::bls_pk_valid(&recipients[i]) {
                return Err(AgeError::EncryptionError);
            }
            i += 1;
        }
        Ok(crate::envelope::Envelope::seal(recipients, plaintext))
    }

    /// Opens an envelope with one secret key; see the envelope module
    /// for the exact contract.
    pub fn decrypt<K>(env: &crate::envelope::Envelope, key: &TypedSecretKey<K>)
        -> (r: Result<Vec<u8>, ArkError>)
        ensures
            match r {
                Ok(p) => env.opens_to(key@) == Ok::<Seq<u8>, ArkError>(p@),
                Err(e) => env.opens_to(key@) == Err::<Seq<u8>, ArkError>(e),
            },
    {
        let mut sk = key.danger_to_bytes();
        let opened = env.open(&sk);
        crate::keys::fill_zero(&mut sk);
        opened
    }
}

} // verus!
