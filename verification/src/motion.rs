//! Moving a position along a direction for the time of one frame.

use vstd::prelude::*;
use crate::vector::abs_component;
use crate::vector::magnitude;
use crate::vector::with_sign_of;
use crate::vector::Point;
use crate::vector::Vec2;

verus! {

/// What divides the product of a direction component, a speed and a duration
/// to give a distance: the millionths in 1 times the nanoseconds in a second.
pub const DISPLACEMENT_SCALE: u64 = 1_000_000_000_000_000;

/// The distance covered along one axis in `dt` nanoseconds at `speed`
/// thousandths of a pixel per second, where the direction's component on that
/// axis is `component` millionths; rounded towards zero.
pub open spec fn displacement(component: int, speed: int, dt: int) -> int {
    with_sign_of(component, (magnitude(component) * speed * dt) / (DISPLACEMENT_SCALE as int))
}

/// Whether a coordinate moved by that distance is still a machine integer.
pub open spec fn can_advance(c: int, component: int, speed: int, dt: int) -> bool {
    i64::MIN <= c + displacement(component, speed, dt) <= i64::MAX
}

/// Whether both coordinates of `p` can be moved along `direction`.
pub open spec fn can_move(p: Point, direction: Vec2, speed: u32, dt: u64) -> bool {
    &&& can_advance(p.x as int, direction.x as int, speed as int, dt as int)
    &&& can_advance(p.y as int, direction.y as int, speed as int, dt as int)
}

/// `p` moved along `direction` for `dt` nanoseconds at `speed`.
pub open spec fn moved(p: Point, direction: Vec2, speed: u32, dt: u64) -> Point {
    Point {
        x: (p.x + displacement(direction.x as int, speed as int, dt as int)) as i64,
        y: (p.y + displacement(direction.y as int, speed as int, dt as int)) as i64,
    }
}

/// In no time, or along no direction, or at no speed, nothing moves.
pub proof fn lemma_displacement_zero(component: int, speed: int, dt: int)
    requires
        component == 0 || speed == 0 || dt == 0,
    ensures
        displacement(component, speed, dt) == 0,
{
    assert(magnitude(component) * speed * dt == 0) by (nonlinear_arith)
        requires
            magnitude(component) == 0 || speed == 0 || dt == 0,
    ;
}

/// A frame of no duration leaves every position where it is.
pub proof fn lemma_zero_frame(p: Point, direction: Vec2, speed: u32)
    ensures
        can_move(p, direction, speed, 0),
        moved(p, direction, speed, 0) == p,
{
    lemma_displacement_zero(direction.x as int, speed as int, 0);
    lemma_displacement_zero(direction.y as int, speed as int, 0);
}

/// Reversing a component reverses the distance covered: a bounced entity
/// moves back as fast as it came.
pub proof fn lemma_displacement_odd(component: int, speed: int, dt: int)
    requires
        speed >= 0,
        dt >= 0,
    ensures
        displacement(-component, speed, dt) == -displacement(component, speed, dt),
{
    if component == 0 {
        lemma_displacement_zero(0, speed, dt);
    }
}

/// Computes the distance covered along one axis.
pub fn displace(component: i32, speed: u32, dt: u64) -> (d: i128)
    ensures
        d == displacement(component as int, speed as int, dt as int),
        -0x4000_0000_0000_0000_0000 <= d <= 0x4000_0000_0000_0000_0000,
{
    let m: u128 = abs_component(component) as u128;
    let s: u128 = speed as u128;
    let t: u128 = dt as u128;
    assert(m * s <= 0x8000_0000 * 0xffff_ffff) by (nonlinear_arith)
        requires
            0 <= m <= 0x8000_0000,
            0 <= s <= 0xffff_ffff,
    ;
    let ms: u128 = m * s;
    assert(ms * t <= 0x8000_0000 * 0xffff_ffff * 0xffff_ffff_ffff_ffff) by (nonlinear_arith)
        requires
            0 <= ms <= 0x8000_0000 * 0xffff_ffff,
            0 <= t <= 0xffff_ffff_ffff_ffff,
    ;
    let product: u128 = ms * t;
    let scale: u128 = DISPLACEMENT_SCALE as u128;
    let distance: i128 = (product / scale) as i128;
    if component < 0 {
        -distance
    } else {
        distance
    }
}

/// Whether `advance` may be called on these arguments.
pub fn fits_advance(c: i64, component: i32, speed: u32, dt: u64) -> (ok: bool)
    ensures
        ok == can_advance(c as int, component as int, speed as int, dt as int),
{
    let target: i128 = c as i128 + displace(component, speed, dt);
    i64::MIN as i128 <= target && target <= i64::MAX as i128
}

/// Moves one coordinate.
pub fn advance(c: i64, component: i32, speed: u32, dt: u64) -> (r: i64)
    requires
        can_advance(c as int, component as int, speed as int, dt as int),
    ensures
        r == c + displacement(component as int, speed as int, dt as int),
{
    let target: i128 = c as i128 + displace(component, speed, dt);
    target as i64
}

/// Whether `move_point` may be called on these arguments.
pub fn fits_move(p: Point, direction: Vec2, speed: u32, dt: u64) -> (ok: bool)
    ensures
        ok == can_move(p, direction, speed, dt),
{
    fits_advance(p.x, direction.x, speed, dt) && fits_advance(p.y, direction.y, speed, dt)
}

/// Moves `p` along `direction` for `dt` nanoseconds at `speed`. A frame of no
/// duration leaves `p` where it is.
pub fn move_point(p: Point, direction: Vec2, speed: u32, dt: u64) -> (r: Point)
    requires
        can_move(p, direction, speed, dt),
    ensures
        r == moved(p, direction, speed, dt),
        dt == 0 ==> r == p,
{
    proof {
        if dt == 0 {
            lemma_zero_frame(p, direction, speed);
        }
    }
    Point {
        x: advance(p.x, direction.x, speed, dt),
        y: advance(p.y, direction.y, speed, dt),
    }
}

} // verus!
