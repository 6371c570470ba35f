//! Trusted access to the process-wide random number generator.
//!
//! Nothing can be promised about a random value, so the contracts here state
//! only lengths and ranges; every function that consumes such a value is
//! verified for every value the contract admits.

use vstd::prelude::*;

verus! {

/// Relies on rand::fill: fills the buffer with random bytes.
#[verifier::external_body]
pub fn random_bytes(n: usize) -> (r: Vec<u8>)
    ensures
        r@.len() == n,
{
    let mut buf = vec![0u8; n];
    rand::fill(&mut buf[..]);
    buf
}

/// Relies on rand::random_range: returns a value inside the given range,
/// which must not be empty.
#[verifier::external_body]
pub fn random_below(n: usize) -> (r: usize)
    requires
        n > 0,
    ensures
        r < n,
{
    rand::random_range(0..n)
}

} // verus!
