//! The source of randomness for initial conditions.

use vstd::prelude::*;
use rand::Rng;

verus! {

/// Draws an integer with the thread-local generator of the `rand` crate.
///
/// Calls `rand::Rng::gen_range` on `rand::thread_rng()` with the half-open
/// range `low..high`. The call is not verified: it is taken on trust that the
/// value lies in the range. The range must not be empty, since `gen_range`
/// panics on an empty one.
#[verifier::external_body]
pub(crate) fn random_in_range(low: i64, high: i64) -> (value: i64)
    requires
        low < high,
    ensures
        low <= value < high,
{
    rand::thread_rng().gen_range(low..high)
}

} // verus!
