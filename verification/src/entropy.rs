use vstd::prelude::*;
use rand::Rng;

verus! {

/// Relies on rand's `gen_range`: the result is drawn uniformly from
/// `0..n`, so it is below the bound.
#[verifier::external_body]
pub(crate) fn random_below(n: usize) -> (r: usize)
    requires
        n > 0,
    ensures
        r < n,
{
    rand::thread_rng().gen_range(0..n)
}

/// Relies on uuid's `Uuid::new_v4` for a freshly drawn random identifier;
/// nothing is assumed of the value.
#[verifier::external_body]
pub(crate) fn fresh_uuid() -> u128 {
    uuid::Uuid::new_v4().as_u128()
}

} // verus!
