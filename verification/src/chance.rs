//! Numbers drawn by chance.

use rand::Rng;
use vstd::prelude::*;

verus! {

/// Draws 64 bits by chance with `rand::random`. Nothing is claimed of the
/// value: any `u64` may come back, and two calls need not agree.
#[verifier::external_body]
pub(crate) fn random_key() -> (r: u64) {
    rand::random::<u64>()
}

/// Draws a number below `n` by chance, with `Rng::gen_range` on the
/// generator that `rand::thread_rng` hands out. The range `0..n` must not be
/// empty, or `gen_range` panics. Of the value only this is claimed: it lies
/// in the range. Two calls need not agree.
#[verifier::external_body]
pub(crate) fn random_below(n: usize) -> (r: usize)
    requires
        n > 0,
    ensures
        r < n,
{
    rand::thread_rng().gen_range(0..n)
}

} // verus!
