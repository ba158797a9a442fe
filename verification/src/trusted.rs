use vstd::prelude::*;

verus! {

/// Relies on rand::random_range over `0..n`: a uniformly random index
/// below `n`.  It panics only on an empty range, which the precondition
/// rules out; nothing more can be promised of a random value, so callers
/// must hold for every index below `n`.
#[verifier::external_body]
pub(crate) fn random_index(n: usize) -> (r: usize)
    requires
        n > 0,
    ensures
        r < n,
{
    rand::random_range(0..n)
}

} // verus!
