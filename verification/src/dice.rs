//! The one source of chance.

use rand::Rng;
use vstd::prelude::*;

verus! {

/// How many millionths make a whole: a fraction is rolled as one of this
/// many equally likely values.
pub const MILLION: u64 = 1_000_000;

/// A number drawn from `low..high`. This is the trusted call of rand's
/// `Rng::gen_range` on its thread-local generator, of which only the range
/// is claimed: the number is at least `low` and below `high`. The bounds
/// must admit a number, as `gen_range` demands.
#[verifier::external_body]
pub(crate) fn random_in(low: u64, high: u64) -> (pick: u64)
    requires
        low < high,
    ensures
        low <= pick < high,
{
    rand::thread_rng().gen_range(low, high)
}

/// An index drawn from `0..len`.
pub(crate) fn random_index(len: usize) -> (pick: usize)
    requires
        len > 0,
    ensures
        pick < len,
{
    random_in(0, len as u64) as usize
}

/// A fraction drawn from the millionths `0..1_000_000`.
pub(crate) fn random_fraction() -> (millionths: i64)
    ensures
        0 <= millionths < MILLION,
{
    random_in(0, MILLION) as i64
}

} // verus!
