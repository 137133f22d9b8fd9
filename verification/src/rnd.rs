//! Trusted boundary to the process random number generator.

use vstd::prelude::*;

verus! {

/// Relies on `rand::random`: 32 bytes from the thread generator.  Nothing
/// can be promised of a random value but its length.
#[verifier::external_body]
pub(crate) fn random_bytes32() -> (r: Vec<u8>)
    ensures r@.len() == 32,
{
    rand::random::<[u8; 32]>().to_vec()
}

} // verus!
