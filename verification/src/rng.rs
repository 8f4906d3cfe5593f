//! Randomness for peer selection. The only promise taken on trust is the
//! range bound; which index comes back is anyone's guess.

use rand::Rng;
use vstd::prelude::*;

verus! {

/// Relies on rand's `Rng::gen_range` over the half-open range `0..n`,
/// which returns a value of that range and panics only when the range is
/// empty.
#[verifier::external_body]
pub fn random_below(n: usize) -> (r: usize)
    requires
        n > 0,
    ensures
        r < n,
{
    rand::thread_rng().gen_range(0..n)
}

} // verus!
