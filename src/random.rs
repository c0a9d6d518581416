//! Draws from the thread-local random generator.
use rand::Rng;
use vstd::prelude::*;

verus! {

/// Relies on `rand::Rng::gen_range` over `0..n`: a value in `[0, n)`; it
/// panics on an empty range, which `n > 0` rules out.
#[verifier::external_body]
pub(crate) fn random_below(n: u16) -> (r: u16)
    requires
        n > 0,
    ensures
        r < n,
{
    rand::thread_rng().gen_range(0..n)
}

} // verus!
