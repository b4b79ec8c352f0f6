//! Fixed-point points and direction vectors.
//!
//! Positions are whole numbers of thousandths of a pixel. Direction
//! components are whole numbers of millionths, so that `UNIT` stands for 1.

use vstd::prelude::*;

verus! {

/// The fixed-point representation of 1 in a direction component.
pub const UNIT: i32 = 1_000_000;

/// `UNIT` squared.
pub const UNIT_SQUARED: u64 = 1_000_000_000_000;

/// A position on the plane, in thousandths of a pixel.
#[derive(Clone, Copy, Debug, PartialEq, Eq, Structural)]
pub struct Point {
    pub x: i64,
    pub y: i64,
}

/// A direction or an input intent, in millionths.
#[derive(Clone, Copy, Debug, PartialEq, Eq, Structural)]
pub struct Vec2 {
    pub x: i32,
    pub y: i32,
}

/// `s` is the integer part of the square root of `n`.
pub open spec fn is_floor_sqrt(n: nat, s: nat) -> bool {
    s * s <= n && n < (s + 1) * (s + 1)
}

/// The integer part of the square root of `n`.
pub open spec fn floor_sqrt(n: nat) -> nat {
    choose|s: nat| is_floor_sqrt(n, s)
}

/// Every natural number has an integer square root.
pub proof fn lemma_floor_sqrt_exists(n: nat)
    ensures
        is_floor_sqrt(n, floor_sqrt(n)),
    decreases n,
{
    if n == 0 {
        let z: nat = 0;
        assert(z * z <= n && n < (z + 1) * (z + 1)) by (nonlinear_arith)
            requires
                z == 0,
                n == 0,
        ;
        assert(is_floor_sqrt(n, z));
    } else {
        let m: nat = (n - 1) as nat;
        lemma_floor_sqrt_exists(m);
        let s: nat = floor_sqrt(m);
        if (s + 1) * (s + 1) <= n {
            assert(n < (s + 2) * (s + 2)) by (nonlinear_arith)
                requires
                    n - 1 < (s + 1) * (s + 1),
            ;
            assert(is_floor_sqrt(n, s + 1));
        } else {
            assert(is_floor_sqrt(n, s));
        }
    }
}

/// The integer square root is unique.
pub proof fn lemma_floor_sqrt_unique(n: nat, s: nat)
    requires
        is_floor_sqrt(n, s),
    ensures
        floor_sqrt(n) == s,
{
    let t: nat = floor_sqrt(n);
    assert(is_floor_sqrt(n, t));
    assert(s < t + 1) by (nonlinear_arith)
        requires
            s * s <= n,
            n < (t + 1) * (t + 1),
    ;
    assert(t < s + 1) by (nonlinear_arith)
        requires
            t * t <= n,
            n < (s + 1) * (s + 1),
    ;
}

/// The least integer whose square is at least `n`: the square root of `n`,
/// rounded up.
pub open spec fn ceil_sqrt(n: nat) -> nat {
    if floor_sqrt(n) * floor_sqrt(n) == n {
        floor_sqrt(n)
    } else {
        floor_sqrt(n) + 1
    }
}

/// The square of the rounded-up root is at least `n`, and the root is at
/// least the rounded-down one.
pub proof fn lemma_ceil_sqrt_bounds(n: nat)
    ensures
        ceil_sqrt(n) * ceil_sqrt(n) >= n,
        floor_sqrt(n) <= ceil_sqrt(n) <= floor_sqrt(n) + 1,
{
    lemma_floor_sqrt_exists(n);
}

/// Computes the integer part of the square root of `n` by bisection.
pub fn integer_sqrt(n: u128) -> (s: u64)
    ensures
        s == floor_sqrt(n as nat),
{
    let mut lo: u128 = 0;
    let mut hi: u128 = 0x1_0000_0000_0000_0000;
    assert(n < hi * hi) by (nonlinear_arith)
        requires
            hi == 0x1_0000_0000_0000_0000,
            n <= u128::MAX,
    ;
    while hi - lo > 1
        invariant
            lo < hi <= 0x1_0000_0000_0000_0000,
            lo * lo <= n < hi * hi,
        decreases hi - lo,
    {
        let mid: u128 = lo + (hi - lo) / 2;
        assert(mid * mid <= u128::MAX) by (nonlinear_arith)
            requires
                0 <= mid < 0x1_0000_0000_0000_0000,
        ;
        if mid * mid <= n {
            lo = mid;
        } else {
            hi = mid;
        }
    }
    proof {
        assert(hi == lo + 1);
        lemma_floor_sqrt_unique(n as nat, lo as nat);
    }
    lo as u64
}

/// The absolute value of a direction component.
pub open spec fn magnitude(c: int) -> int {
    if c < 0 {
        -c
    } else {
        c
    }
}

/// The sign of `c` applied to the non-negative `m`.
pub open spec fn with_sign_of(c: int, m: int) -> int {
    if c < 0 {
        -m
    } else {
        m
    }
}

/// Computes `|c|`.
pub fn abs_component(c: i32) -> (m: u32)
    ensures
        m == magnitude(c as int),
{
    if c < 0 {
        let wide: i64 = -(c as i64);
        wide as u32
    } else {
        c as u32
    }
}

/// One component `c` of a vector whose length times `UNIT` is `len`, rescaled
/// so that the vector has length `UNIT`; rounded towards zero.
pub open spec fn rescaled(c: int, len: int) -> int {
    with_sign_of(c, (magnitude(c) * UNIT_SQUARED) / len)
}

impl Vec2 {
    /// The squared Euclidean length.
    pub open spec fn norm_squared(self) -> int {
        self.x * self.x + self.y * self.y
    }

    /// Neither component exceeds `UNIT` in absolute value.
    pub open spec fn is_bounded(self) -> bool {
        -UNIT <= self.x <= UNIT && -UNIT <= self.y <= UNIT
    }

    /// `UNIT` times the length of the vector, rounded up.
    pub open spec fn scaled_length(self) -> int {
        ceil_sqrt((self.norm_squared() * UNIT_SQUARED) as nat) as int
    }

    /// The vector of length `UNIT` with the same direction: each component is
    /// multiplied by `UNIT` and divided by the vector's length, and rounded
    /// towards zero, so that the result is never longer than `UNIT`. The zero
    /// vector, which has no direction, stays as it is.
    pub open spec fn normalized(self) -> Vec2 {
        if self.x == 0 && self.y == 0 {
            self
        } else {
            Vec2 {
                x: rescaled(self.x as int, self.scaled_length()) as i32,
                y: rescaled(self.y as int, self.scaled_length()) as i32,
            }
        }
    }

    /// The vector with the sign of its horizontal component reversed.
    pub open spec fn flipped_x(self) -> Vec2 {
        Vec2 { x: (-self.x) as i32, y: self.y }
    }

    /// The vector with the sign of its vertical component reversed.
    pub open spec fn flipped_y(self) -> Vec2 {
        Vec2 { x: self.x, y: (-self.y) as i32 }
    }

    /// The vector with the given components.
    pub fn new(x: i32, y: i32) -> (v: Vec2)
        ensures
            v.x == x,
            v.y == y,
    {
        Vec2 { x, y }
    }

    /// The zero vector.
    pub fn zero() -> (v: Vec2)
        ensures
            v.x == 0,
            v.y == 0,
    {
        Vec2 { x: 0, y: 0 }
    }

    /// Rescales the vector to length `UNIT`, leaving the zero vector alone.
    pub fn normalize(self) -> (r: Vec2)
        ensures
            r == self.normalized(),
            r.is_bounded(),
            self.x != 0 || self.y != 0 ==> r.norm_squared() <= UNIT_SQUARED,
    {
        proof {
            lemma_normalized_within_unit(self);
        }
        if self.x == 0 && self.y == 0 {
            return self;
        }
        let ax: u128 = abs_component(self.x) as u128;
        let ay: u128 = abs_component(self.y) as u128;
        assert(ax * ax <= 0x4000_0000_0000_0000) by (nonlinear_arith)
            requires
                0 <= ax <= 0x8000_0000,
        ;
        assert(ay * ay <= 0x4000_0000_0000_0000) by (nonlinear_arith)
            requires
                0 <= ay <= 0x8000_0000,
        ;
        let n: u128 = ax * ax + ay * ay;
        assert(n == self.norm_squared() && n > 0) by (nonlinear_arith)
            requires
                n == ax * ax + ay * ay,
                ax == magnitude(self.x as int),
                ay == magnitude(self.y as int),
                self.x != 0 || self.y != 0,
                self.norm_squared() == self.x * self.x + self.y * self.y,
        ;
        assert(ax * ax <= n && ay * ay <= n) by (nonlinear_arith)
            requires
                n == ax * ax + ay * ay,
        ;
        let unit_sq: u128 = UNIT_SQUARED as u128;
        let scaled: u128 = n * unit_sq;
        let root: u128 = integer_sqrt(scaled) as u128;
        proof {
            lemma_floor_sqrt_exists(scaled as nat);
            assert(root * root <= scaled);
        }
        let len: u128 = if root * root == scaled {
            root
        } else {
            root + 1
        };
        proof {
            lemma_rescale_bound(ax as nat, n as nat, len as nat);
            lemma_rescale_bound(ay as nat, n as nat, len as nat);
        }
        let sx: i32 = (ax * unit_sq / len) as i32;
        let sy: i32 = (ay * unit_sq / len) as i32;
        Vec2 { x: if self.x < 0 { -sx } else { sx }, y: if self.y < 0 { -sy } else { sy } }
    }

    /// Reverses the sign of the horizontal component.
    pub fn flip_x(self) -> (r: Vec2)
        requires
            self.x > i32::MIN,
        ensures
            r == self.flipped_x(),
    {
        Vec2 { x: -self.x, y: self.y }
    }

    /// Reverses the sign of the vertical component.
    pub fn flip_y(self) -> (r: Vec2)
        requires
            self.y > i32::MIN,
        ensures
            r == self.flipped_y(),
    {
        Vec2 { x: self.x, y: -self.y }
    }
}

/// A component `a` of a non-zero vector with squared length `n` is rescaled to
/// at most `UNIT`, and the division that does so is by a positive number.
pub proof fn lemma_rescale_bound(a: nat, n: nat, len: nat)
    requires
        a * a <= n,
        n > 0,
        len == ceil_sqrt(n * (UNIT_SQUARED as nat)),
    ensures
        len >= UNIT,
        (a * UNIT_SQUARED) / (len as int) <= UNIT,
{
    let big: nat = n * (UNIT_SQUARED as nat);
    lemma_floor_sqrt_exists(big);
    lemma_ceil_sqrt_bounds(big);
    let floor: nat = floor_sqrt(big);
    // UNIT * a is an integer whose square is at most `big`.
    assert((UNIT * a) * (UNIT * a) <= big) by (nonlinear_arith)
        requires
            a * a <= n,
            big == n * 1_000_000_000_000,
            UNIT == 1_000_000,
    ;
    assert(UNIT * a < floor + 1) by (nonlinear_arith)
        requires
            (UNIT * a) * (UNIT * a) <= big,
            big < (floor + 1) * (floor + 1),
            a >= 0,
            UNIT == 1_000_000,
    ;
    assert(1_000_000 * 1_000_000 <= big) by (nonlinear_arith)
        requires
            n >= 1,
            big == n * 1_000_000_000_000,
    ;
    assert(1_000_000 < floor + 1) by (nonlinear_arith)
        requires
            1_000_000 * 1_000_000 <= big,
            big < (floor + 1) * (floor + 1),
    ;
    assert((a * UNIT_SQUARED) / (len as int) <= UNIT) by (nonlinear_arith)
        requires
            UNIT * a <= len,
            len >= 1_000_000,
            UNIT == 1_000_000,
            UNIT_SQUARED == 1_000_000_000_000,
    ;
}

/// Where two non-negative parts `px` and `py` are each a component times
/// `UNIT` squared, divided by a length `len` whose square is at least the
/// squared length of the components times `UNIT` squared, the parts make a
/// vector no longer than `UNIT`.
proof fn lemma_parts_within_unit(ax: int, ay: int, len: int, px: int, py: int)
    requires
        0 <= ax,
        0 <= ay,
        0 < len,
        len * len >= (ax * ax + ay * ay) * UNIT_SQUARED,
        0 <= px,
        0 <= py,
        px * len <= ax * UNIT_SQUARED,
        py * len <= ay * UNIT_SQUARED,
    ensures
        px * px + py * py <= UNIT_SQUARED,
{
    let u: int = UNIT_SQUARED as int;
    let l2: int = len * len;
    assert((px * len) * (px * len) <= (ax * u) * (ax * u)) by (nonlinear_arith)
        requires
            0 <= px * len <= ax * u,
    ;
    assert((py * len) * (py * len) <= (ay * u) * (ay * u)) by (nonlinear_arith)
        requires
            0 <= py * len <= ay * u,
    ;
    assert((px * len) * (px * len) == (px * px) * l2) by (nonlinear_arith)
        requires
            l2 == len * len,
    ;
    assert((py * len) * (py * len) == (py * py) * l2) by (nonlinear_arith)
        requires
            l2 == len * len,
    ;
    assert((ax * u) * (ax * u) + (ay * u) * (ay * u) == ((ax * ax + ay * ay) * u) * u)
        by (nonlinear_arith);
    let s: int = px * px + py * py;
    assert(s * l2 == (px * px) * l2 + (py * py) * l2) by (nonlinear_arith)
        requires
            s == px * px + py * py,
    ;
    let m: int = (ax * ax + ay * ay) * u;
    assert(l2 > 0) by (nonlinear_arith)
        requires
            l2 == len * len,
            len > 0,
    ;
    assert(s * l2 <= m * u);
    assert(m * u <= l2 * u) by (nonlinear_arith)
        requires
            m <= l2,
            u >= 0,
    ;
    assert(s <= u) by (nonlinear_arith)
        requires
            s * l2 <= l2 * u,
            l2 > 0,
    ;
}

/// A normalised vector is never longer than `UNIT`, and none of its
/// components exceeds `UNIT`: an intent on a diagonal moves no faster than one
/// along an axis.
pub proof fn lemma_normalized_within_unit(v: Vec2)
    ensures
        v.x != 0 || v.y != 0 ==> v.normalized().norm_squared() <= UNIT_SQUARED,
        v.x != 0 || v.y != 0 ==> v.normalized().is_bounded(),
{
    if v.x != 0 || v.y != 0 {
        let ax: int = magnitude(v.x as int);
        let ay: int = magnitude(v.y as int);
        let n: int = v.norm_squared();
        assert(n == ax * ax + ay * ay && n > 0 && ax * ax <= n && ay * ay <= n)
            by (nonlinear_arith)
            requires
                ax == magnitude(v.x as int),
                ay == magnitude(v.y as int),
                v.x != 0 || v.y != 0,
                n == v.x * v.x + v.y * v.y,
        ;
        let big: nat = (n * UNIT_SQUARED) as nat;
        let len: int = v.scaled_length();
        lemma_ceil_sqrt_bounds(big);
        lemma_rescale_bound(ax as nat, n as nat, len as nat);
        lemma_rescale_bound(ay as nat, n as nat, len as nat);
        let px: int = (ax * UNIT_SQUARED) / len;
        let py: int = (ay * UNIT_SQUARED) / len;
        assert(px * len <= ax * UNIT_SQUARED && 0 <= px) by (nonlinear_arith)
            requires
                px == (ax * UNIT_SQUARED) / len,
                len > 0,
                ax >= 0,
        ;
        assert(py * len <= ay * UNIT_SQUARED && 0 <= py) by (nonlinear_arith)
            requires
                py == (ay * UNIT_SQUARED) / len,
                len > 0,
                ay >= 0,
        ;
        lemma_parts_within_unit(ax, ay, len, px, py);
        let r = v.normalized();
        assert(r.x == with_sign_of(v.x as int, px));
        assert(r.y == with_sign_of(v.y as int, py));
        assert(r.norm_squared() == px * px + py * py) by (nonlinear_arith)
            requires
                r.norm_squared() == r.x * r.x + r.y * r.y,
                r.x == px || r.x == -px,
                r.y == py || r.y == -py,
        ;
    }
}

/// To reverse a component of a direction leaves its length as it is: a
/// direction that has been normalised stays so through every bounce.
pub proof fn lemma_flip_keeps_length(v: Vec2)
    requires
        v.is_bounded(),
    ensures
        v.flipped_x().norm_squared() == v.norm_squared(),
        v.flipped_y().norm_squared() == v.norm_squared(),
        v.flipped_x().is_bounded(),
        v.flipped_y().is_bounded(),
        v.flipped_x().flipped_x() == v,
        v.flipped_y().flipped_y() == v,
{
    assert((-v.x) * (-v.x) == v.x * v.x) by (nonlinear_arith);
    assert((-v.y) * (-v.y) == v.y * v.y) by (nonlinear_arith);
}

/// A vector along an axis is normalised to exactly `UNIT` along that axis.
pub proof fn lemma_normalized_axis(c: i32)
    requires
        c != 0,
    ensures
        (Vec2 { x: c, y: 0 }).normalized() == (Vec2 { x: with_sign_of(c as int, UNIT as int) as i32, y: 0 }),
        (Vec2 { x: 0, y: c }).normalized() == (Vec2 { x: 0, y: with_sign_of(c as int, UNIT as int) as i32 }),
{
    let a: int = magnitude(c as int);
    let len: int = a * UNIT;
    let big: int = (a * a) * UNIT_SQUARED;
    assert(len * len == big && len > 0) by (nonlinear_arith)
        requires
            len == a * 1_000_000,
            big == (a * a) * 1_000_000_000_000,
            a > 0,
    ;
    assert(big < (len + 1) * (len + 1)) by (nonlinear_arith)
        requires
            len * len == big,
            len > 0,
    ;
    lemma_floor_sqrt_unique(big as nat, len as nat);
    assert(a * a == c * c) by (nonlinear_arith)
        requires
            a == c || a == -c,
    ;
    let vx = Vec2 { x: c, y: 0 };
    let vy = Vec2 { x: 0, y: c };
    assert(vx.norm_squared() == a * a && vy.norm_squared() == a * a);
    assert(vx.scaled_length() == len && vy.scaled_length() == len);
    assert((a * UNIT_SQUARED) / len == UNIT) by (nonlinear_arith)
        requires
            len == a * 1_000_000,
            a > 0,
            UNIT_SQUARED == 1_000_000_000_000,
            UNIT == 1_000_000,
    ;
    assert((0 * UNIT_SQUARED) / len == 0) by (nonlinear_arith)
        requires
            len > 0,
    ;
}

} // verus!
