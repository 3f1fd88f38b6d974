//! Trusted boundary to rltk's uniform random-number generator. Nothing
//! about the distribution is relied on, only the range of each draw.

use vstd::prelude::*;

use rltk::RandomNumberGenerator;

verus! {

#[verifier::external_type_specification]
#[verifier::external_body]
pub struct ExRandomNumberGenerator(RandomNumberGenerator);

/// Relies on rltk's RandomNumberGenerator::new, which seeds a generator
/// from entropy; nothing is promised of the value.
#[verifier::external_body]
pub(crate) fn rng_new() -> (r: RandomNumberGenerator) {
    RandomNumberGenerator::new()
}

/// Relies on rltk's RandomNumberGenerator::range(lo, hi): a draw from
/// [lo, hi), inclusive of lo and exclusive of hi; it panics on an empty
/// range, so the range must be non-empty.
#[verifier::external_body]
pub(crate) fn rng_range(rng: &mut RandomNumberGenerator, lo: i32, hi: i32) -> (r: i32)
    requires
        lo < hi,
    ensures
        lo <= r < hi,
{
    rng.range(lo, hi)
}

/// Relies on rltk's RandomNumberGenerator::roll_dice(n, die_type): the sum
/// of n draws, each from [1, die_type].
#[verifier::external_body]
pub(crate) fn rng_roll_dice(rng: &mut RandomNumberGenerator, n: i32, die_type: i32) -> (r: i32)
    requires
        1 <= n,
        1 <= die_type,
        die_type < i32::MAX,
        n * die_type <= i32::MAX,
    ensures
        n <= r <= n * die_type,
{
    rng.roll_dice(n, die_type)
}

} // verus!
