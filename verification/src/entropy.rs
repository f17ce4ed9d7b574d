//! Randomness from the operating system.

use vstd::prelude::*;
use rand::RngCore;

verus! {

/// Fills `buf` with random bytes from the operating system's generator
/// (`rand::rngs::OsRng::fill_bytes`). Nothing is claimed of the bytes but that
/// the buffer keeps its length; the generator panics if the operating system
/// cannot supply randomness.
#[verifier::external_body]
pub(crate) fn fill_random(buf: &mut [u8])
    ensures
        final(buf)@.len() == old(buf)@.len(),
{
    rand::rngs::OsRng.fill_bytes(buf)
}

/// Twelve random bytes.
pub(crate) fn random_12() -> (r: [u8; 12]) {
    let mut b = [0u8; 12];
    fill_random(&mut b);
    b
}

/// Thirty-two random bytes.
pub(crate) fn random_32() -> (r: [u8; 32]) {
    let mut b = [0u8; 32];
    fill_random(&mut b);
    b
}

} // verus!
