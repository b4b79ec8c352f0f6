//! Tests of contact between two entities.

use vstd::prelude::*;
use crate::vector::magnitude;
use crate::vector::Point;

verus! {

/// The squared Euclidean distance between two positions.
pub open spec fn distance_squared(a: Point, b: Point) -> int {
    (a.x - b.x) * (a.x - b.x) + (a.y - b.y) * (a.y - b.y)
}

/// Whether two circles overlap: whether their centres are less than the sum
/// of the radii apart.
pub open spec fn circles_overlap(a: Point, radius_a: u32, b: Point, radius_b: u32) -> bool {
    distance_squared(a, b) < (radius_a + radius_b) * (radius_a + radius_b)
}

/// Whether a ball's box meets a paddle's: the centres are at most `reach`
/// apart horizontally, and the vertical ranges have a point in common.
pub open spec fn boxes_meet(
    paddle: Point,
    paddle_half_height: u32,
    ball: Point,
    ball_half_height: u32,
    reach: u32,
) -> bool {
    &&& magnitude(paddle.x - ball.x) <= reach
    &&& ball.y - ball_half_height <= paddle.y + paddle_half_height
    &&& ball.y + ball_half_height >= paddle.y - paddle_half_height
}

/// The distance between two coordinates.
fn gap(a: i64, b: i64) -> (d: u128)
    ensures
        d == magnitude(a - b),
        d <= 0xffff_ffff_ffff_ffff,
{
    let diff: i128 = a as i128 - b as i128;
    if diff < 0 {
        (-diff) as u128
    } else {
        diff as u128
    }
}

/// Whether two circles overlap.
pub fn overlaps(a: Point, radius_a: u32, b: Point, radius_b: u32) -> (hit: bool)
    ensures
        hit == circles_overlap(a, radius_a, b, radius_b),
{
    let dx: u128 = gap(a.x, b.x);
    let dy: u128 = gap(a.y, b.y);
    let reach: u128 = radius_a as u128 + radius_b as u128;
    assert(dx * dx + dy * dy == distance_squared(a, b)) by (nonlinear_arith)
        requires
            dx == magnitude(a.x - b.x),
            dy == magnitude(a.y - b.y),
            distance_squared(a, b) == (a.x - b.x) * (a.x - b.x) + (a.y - b.y) * (a.y - b.y),
    ;
    if dx >= reach || dy >= reach {
        assert(dx * dx + dy * dy >= reach * reach) by (nonlinear_arith)
            requires
                dx >= reach || dy >= reach,
                dx >= 0,
                dy >= 0,
                reach >= 0,
        ;
        false
    } else {
        assert(dx * dx <= 0x2_0000_0000 * 0x2_0000_0000 && dy * dy <= 0x2_0000_0000
            * 0x2_0000_0000 && reach * reach <= 0x2_0000_0000 * 0x2_0000_0000)
            by (nonlinear_arith)
            requires
                0 <= dx < reach,
                0 <= dy < reach,
                reach <= 0x2_0000_0000,
        ;
        dx * dx + dy * dy < reach * reach
    }
}

/// Whether a ball's box meets a paddle's.
pub fn meets(
    paddle: Point,
    paddle_half_height: u32,
    ball: Point,
    ball_half_height: u32,
    reach: u32,
) -> (hit: bool)
    ensures
        hit == boxes_meet(paddle, paddle_half_height, ball, ball_half_height, reach),
{
    let dx: u128 = gap(paddle.x, ball.x);
    let ball_low: i128 = ball.y as i128 - ball_half_height as i128;
    let ball_high: i128 = ball.y as i128 + ball_half_height as i128;
    let paddle_low: i128 = paddle.y as i128 - paddle_half_height as i128;
    let paddle_high: i128 = paddle.y as i128 + paddle_half_height as i128;
    dx <= reach as u128 && ball_low <= paddle_high && ball_high >= paddle_low
}

} // verus!
