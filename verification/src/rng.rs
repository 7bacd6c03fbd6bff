//! The engine's only source of randomness, behind one trusted boundary.

use vstd::prelude::*;

verus! {

/// Relies on `rand::Rng::gen_range` on the thread-local generator
/// (`rand::thread_rng`): for a non-empty inclusive range it returns a value
/// inside the range.  Nothing else is assumed of the outcome.
#[verifier::external_body]
pub(crate) fn rand_in_range(lo: i64, hi: i64) -> (r: i64)
    requires
        lo <= hi,
    ensures
        lo <= r <= hi,
{
    rand::Rng::gen_range(&mut rand::thread_rng(), lo..=hi)
}

/// A uniformly random index below `n`.
pub fn rand_index(n: usize) -> (r: usize)
    requires
        0 < n,
        n <= i64::MAX,
    ensures
        r < n,
{
    let hi = (n - 1) as i64;
    let v = rand_in_range(0, hi);
    v as usize
}

} // verus!
