//! The one window through which the simulation draws randomness.
//!
//! Probability-gated steps (random drift, stamina regeneration, initial
//! placement) draw plain integers here and do everything else in verified
//! code, so each such step is verified for every value the draw can take.

use rand::Rng;
use vstd::prelude::*;

verus! {

/// Relies on `rand::Rng::gen_range` over the integer range `0..bound`: the
/// sampled value lies in the range.  The call panics only on an empty
/// range, which the precondition rules out.
#[verifier::external_body]
pub(crate) fn random_below(bound: u64) -> (r: u64)
    requires
        0 < bound,
    ensures
        r < bound,
{
    rand::thread_rng().gen_range(0..bound)
}

} // verus!
