use vstd::prelude::*;
use rltk::RandomNumberGenerator;

verus! {

#[verifier::external_type_specification]
#[verifier::external_body]
pub struct ExRandomNumberGenerator(rltk::RandomNumberGenerator);

/// Relies on `RandomNumberGenerator::range`: a draw from the half-open range
/// `min..max`, which panics when that range is empty.
#[verifier::external_body]
pub(crate) fn range_i64(rng: &mut RandomNumberGenerator, min: i64, max: i64) -> (r: i64)
    requires
        min < max,
    ensures
        min <= r < max,
{
    rng.range(min, max)
}

/// Relies on `RandomNumberGenerator::roll_dice`: the sum of `n` draws from
/// `1..=die_type`, each made by `range(1, die_type + 1)`.
#[verifier::external_body]
pub(crate) fn roll_dice(rng: &mut RandomNumberGenerator, n: i32, die_type: i32) -> (r: i32)
    requires
        0 <= n,
        1 <= die_type < i32::MAX,
        n * die_type <= i32::MAX,
    ensures
        n <= r <= n * die_type,
{
    rng.roll_dice(n, die_type)
}

} // verus!
