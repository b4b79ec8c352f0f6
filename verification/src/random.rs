//! The random source, and what is drawn from it.

use vstd::prelude::*;
use crate::vector::Vec2;
use crate::vector::UNIT;

verus! {

/// Makes `rand::rngs::StdRng`, the random source that the host hands in,
/// known as a type. Nothing is claimed of what is inside it: it is only
/// passed on to `rand::Rng::gen_range`.
#[verifier::external_type_specification]
#[verifier::external_body]
pub struct ExStdRng(rand::rngs::StdRng);

/// Draws from `rand::Rng::gen_range` over the half-open range from zero to
/// `bound`. That method panics on an empty range, so the bound is positive;
/// what it returns lies in the range, and no more is claimed of it.
#[verifier::external_body]
fn uniform_below(rng: &mut rand::rngs::StdRng, bound: i64) -> (r: i64)
    requires
        bound > 0,
    ensures
        0 <= r < bound,
{
    rand::Rng::gen_range(rng, 0..bound)
}

/// A coordinate drawn uniformly from `[0, extent)`. A field without extent
/// has the single coordinate zero.
pub fn sample_coordinate(rng: &mut rand::rngs::StdRng, extent: u32) -> (c: i64)
    ensures
        extent > 0 ==> 0 <= c < extent,
        extent <= 0 ==> c == 0,
{
    if extent > 0 {
        uniform_below(rng, extent as i64)
    } else {
        0
    }
}

/// Whether `v` is a vector that `sample_direction` may return: the
/// normalisation of a vector whose components lie in `[0, UNIT)`.
pub open spec fn is_sampled_direction(v: Vec2) -> bool {
    exists|a: i32, b: i32|
        0 <= a < UNIT && 0 <= b < UNIT && v == (#[trigger] Vec2 { x: a, y: b }.normalized())
}

/// A direction drawn uniformly from the unit square and then normalised.
pub fn sample_direction(rng: &mut rand::rngs::StdRng) -> (v: Vec2)
    ensures
        is_sampled_direction(v),
        v.is_bounded(),
{
    let a: i32 = uniform_below(rng, UNIT as i64) as i32;
    let b: i32 = uniform_below(rng, UNIT as i64) as i32;
    let raw = Vec2 { x: a, y: b };
    raw.normalize()
}

/// One of two outcomes: whether a draw from two numbers gives the first.
pub(crate) fn sample_side(rng: &mut rand::rngs::StdRng) -> (first: bool) {
    uniform_below(rng, 2) == 0
}

} // verus!
