//! The one source of chance that the cave generator draws from.

use vstd::prelude::*;
use rand::Rng;

verus! {

/// A number drawn uniformly from `start..end`.
///
/// This is `gen_range` of the `rand` crate on the generator of the current
/// thread, taken on trust: all that is claimed of it is that the number
/// lies in the range. An empty range is left out, since `gen_range` panics
/// on one.
#[verifier::external_body]
pub fn range(start: u32, end: u32) -> (drawn: u32)
    requires
        start < end,
    ensures
        start <= drawn < end,
{
    rand::thread_rng().gen_range(start, end)
}

/// A number drawn uniformly from `0..100`.
pub fn percent() -> (drawn: u32)
    ensures
        drawn < 100,
{
    range(0, 100)
}

} // verus!
