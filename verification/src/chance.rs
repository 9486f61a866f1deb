//! Numbers by chance.

use rand::Rng;
use vstd::prelude::*;

verus! {

/// A number by chance.
///
/// Calls `rand::random`, of which nothing is claimed: every number can come.
#[verifier::external_body]
pub(crate) fn random_u64() -> (out: u64) {
    rand::random::<u64>()
}

/// A number by chance.
///
/// Calls `rand::random`, of which nothing is claimed: every number can come.
#[verifier::external_body]
pub(crate) fn random_u32() -> (out: u32) {
    rand::random::<u32>()
}

/// A number by chance between two bounds.
///
/// Calls `rand::Rng::gen_range` of the thread's generator, of which it is claimed
/// that the number lies between the bounds, and can be either of them.
#[verifier::external_body]
pub(crate) fn random_between(lo: u16, hi: u16) -> (out: u16)
    requires
        lo <= hi,
    ensures
        lo <= out <= hi,
{
    rand::thread_rng().gen_range(lo..=hi)
}

} // verus!
