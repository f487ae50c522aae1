//! Random bytes.
use vstd::prelude::*;

verus! {

/// `n` random bytes, from `rand`'s thread-local generator through
/// `RngCore::fill_bytes`, which fills the whole buffer. Nothing is said of
/// their values.
#[verifier::external_body]
pub(crate) fn random_bytes(n: usize) -> (r: Vec<u8>)
    ensures
        r@.len() == n,
{
    let mut bytes = vec![0u8; n];
    rand::RngCore::fill_bytes(&mut rand::rng(), &mut bytes);
    bytes
}

} // verus!
