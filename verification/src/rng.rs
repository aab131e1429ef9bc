//! The random source: a single draw primitive over a closed integer range,
//! backed by the process-wide generator of the `rand` crate.

use vstd::prelude::*;
use rand::Rng;

verus! {

/// Relies on `rand::thread_rng` and `rand::Rng::gen_range` on an inclusive
/// integer range: the draw lies within the given closed range, which must
/// be non-empty. Nothing more is assumed of the draw.
#[verifier::external_body]
pub(crate) fn rng_range(lo: usize, hi: usize) -> (r: usize)
    requires
        lo <= hi,
    ensures
        lo <= r <= hi,
{
    rand::thread_rng().gen_range(lo..=hi)
}

} // verus!
