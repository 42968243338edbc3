//! Random numbers.

use rand::{Rng, RngCore};
use vstd::prelude::*;

verus! {

/// `n` bytes of `rand::thread_rng`, filled by `fill_bytes`: nothing but their
/// number is known.
#[verifier::external_body]
pub(crate) fn random_bytes(n: usize) -> (r: Vec<u8>)
    ensures
        r@.len() == n,
{
    let mut b = vec![0u8; n];
    rand::thread_rng().fill_bytes(&mut b);
    b
}

/// A number of `rand::thread_rng` below `n`, by `gen_range`.
#[verifier::external_body]
pub(crate) fn random_below(n: usize) -> (r: usize)
    requires
        n > 0,
    ensures
        r < n,
{
    rand::thread_rng().gen_range(0..n)
}

/// A number of 32 bits, by `rand::random`: nothing is known of it.
#[verifier::external_body]
pub(crate) fn random_u32() -> (r: u32) {
    rand::random::<u32>()
}

} // verus!
