use bevy_turborand::DelegatedRng;
use bevy_turborand::RngComponent;
use vstd::prelude::*;

verus! {

/// bevy_turborand's per-entity random number generator, carried through as an
/// opaque value.
#[verifier::external_type_specification]
#[verifier::external_body]
pub struct ExRngComponent(RngComponent);

/// Relies on `DelegatedRng::usize` of bevy_turborand (delegating to
/// `TurboRand::usize` of turborand): for a non-empty range it returns a value
/// inside the range, and it panics on an empty one.
#[verifier::external_body]
pub(crate) fn draw_below(rng: &mut RngComponent, lo: usize, hi: usize) -> (r: usize)
    requires
        lo < hi,
    ensures
        lo <= r < hi,
{
    rng.usize(lo..hi)
}

} // verus!
