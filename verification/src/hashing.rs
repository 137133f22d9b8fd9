//! Trusted boundary to the content hash used for path-derived indices.

use vstd::prelude::*;
use sha3::{Digest, Sha3_256};

verus! {

/// The 32-byte content hash of a derivation path; names the SHA3-256
/// digest computed by `sha3::Sha3_256`.
pub uninterp spec fn hash_of_name(name: Seq<char>) -> Seq<u8>;

/// Relies on `sha3::Sha3_256::digest`: a 32-byte digest of the path's
/// ASCII bytes, depending on the path alone.
#[verifier::external_body]
pub(crate) fn content_hash(name: &str) -> (r: Vec<u8>)
    ensures
        r@ == hash_of_name(name@),
        r@.len() == 32,
{
    Sha3_256::digest(name.as_bytes()).to_vec()
}

} // verus!
