//! Fixed-point 2D vector math: positions, velocities, distances, facing
//! vectors, and speed-preserving steering.
//!
//! Coordinates are integers in milli-units (see `crate::UNIT`).  A "unit"
//! facing vector is scaled to magnitude `UNIT`.  Rotation toward a target
//! direction is expressed directly — the new velocity points along the
//! target direction and keeps the old speed — rather than through an angle,
//! which keeps every operation exact integer arithmetic.

use vstd::arithmetic::div_mod::{
    lemma_div_nonincreasing, lemma_div_pos_is_pos, lemma_fundamental_div_mod,
    lemma_fundamental_div_mod_converse, lemma_multiply_divide_le,
};
use vstd::prelude::*;

use crate::{SPEED2_LIMIT, UNIT};

verus! {

/// Truth of `r` being the integer square root of `n`: the largest integer
/// whose square does not exceed `n`.
pub open spec fn is_isqrt(n: int, r: int) -> bool {
    0 <= r && r * r <= n && n < (r + 1) * (r + 1)
}

/// The integer square root of `n`, as a mathematical value.  Meaningful for
/// `n >= 0`; `lemma_isqrt_exists` shows the witness exists.
pub open spec fn isqrt_spec(n: int) -> int {
    choose|r: int| is_isqrt(n, r)
}

/// Every nonnegative integer has an integer square root.
pub proof fn lemma_isqrt_exists(n: int)
    requires
        0 <= n,
    ensures
        is_isqrt(n, isqrt_spec(n)),
    decreases n,
{
    if n == 0 {
        assert(is_isqrt(0, 0)) by (nonlinear_arith);
        assert(isqrt_spec(0) == choose|r: int| is_isqrt(0, r));
    } else {
        lemma_isqrt_exists(n - 1);
        let r = isqrt_spec(n - 1);
        if (r + 1) * (r + 1) <= n {
            assert(is_isqrt(n, r + 1)) by (nonlinear_arith)
                requires
                    is_isqrt(n - 1, r),
                    (r + 1) * (r + 1) <= n,
            ;
        } else {
            assert(is_isqrt(n, r)) by (nonlinear_arith)
                requires
                    is_isqrt(n - 1, r),
                    n < (r + 1) * (r + 1),
            ;
        }
    }
}

/// The integer square root is unique.
pub proof fn lemma_isqrt_unique(n: int, a: int, b: int)
    requires
        is_isqrt(n, a),
        is_isqrt(n, b),
    ensures
        a == b,
{
    assert(a == b) by (nonlinear_arith)
        requires
            is_isqrt(n, a),
            is_isqrt(n, b),
    ;
}

/// Computes the integer square root of `n` by binary search.
pub fn isqrt(n: i64) -> (r: i64)
    requires
        0 <= n,
    ensures
        is_isqrt(n as int, r as int),
        r as int == isqrt_spec(n as int),
        0 <= r,
{
    proof {
        lemma_isqrt_exists(n as int);
    }
    let mut lo: i64 = 0;
    let mut hi: i64 = 3_100_000_000;
    assert((n as int) < 3_100_000_000 * 3_100_000_000);
    while lo + 1 < hi
        invariant
            0 <= lo < hi <= 3_100_000_000,
            (lo as int) * (lo as int) <= n as int,
            (n as int) < (hi as int) * (hi as int),
        decreases hi - lo,
    {
        let mid = lo + (hi - lo) / 2;
        assert((mid as int) * (mid as int) <= 3_100_000_000 * 3_100_000_000) by (nonlinear_arith)
            requires
                0 <= mid <= 3_100_000_000,
        ;
        let sq: i128 = (mid as i128) * (mid as i128);
        if sq <= n as i128 {
            lo = mid;
        } else {
            hi = mid;
        }
    }
    proof {
        lemma_isqrt_unique(n as int, lo as int, isqrt_spec(n as int));
    }
    lo
}

/// Division truncating toward zero (for a positive divisor), as machine
/// division does; the spec operator `/` is Euclidean, so the negative case
/// is spelled out.
pub open spec fn tdiv(a: int, b: int) -> int {
    if a >= 0 {
        a / b
    } else {
        -((-a) / b)
    }
}

/// Bound on every coordinate this module computes with, in milli-units.
/// Squares of differences of coordinates within it still fit an `i64`.
pub const GEO_BOUND: i64 = 1_000_000_000;

/// A location on the plane, in milli-units.
#[derive(Clone, Copy, PartialEq, Eq, Structural, Debug)]
pub struct Position {
    pub x: i64,
    pub y: i64,
}

/// A direction with a magnitude (the agent's speed), in milli-units per tick.
#[derive(Clone, Copy, PartialEq, Eq, Structural, Debug)]
pub struct Velocity {
    pub x: i64,
    pub y: i64,
}

/// Squared magnitude of the vector `(x, y)`.
pub open spec fn mag2_xy(x: int, y: int) -> int {
    x * x + y * y
}

/// Squared magnitude of a velocity, in squared milli-units.
pub open spec fn mag2_spec(v: Velocity) -> int {
    mag2_xy(v.x as int, v.y as int)
}

/// Squared distance between two positions, in squared milli-units.
pub open spec fn dist2_spec(a: Position, b: Position) -> int {
    mag2_xy(b.x - a.x, b.y - a.y)
}

/// The position's coordinates are within the bound the module computes with.
pub open spec fn pos_bounded(p: Position) -> bool {
    -GEO_BOUND <= p.x <= GEO_BOUND && -GEO_BOUND <= p.y <= GEO_BOUND
}

/// The velocity's components are within the bound the module computes with.
pub open spec fn vel_bounded(v: Velocity) -> bool {
    -GEO_BOUND <= v.x <= GEO_BOUND && -GEO_BOUND <= v.y <= GEO_BOUND
}

/// A velocity the simulation accepts: bounded components and a speed within
/// the global speed limit.
pub open spec fn vel_ok(v: Velocity) -> bool {
    vel_bounded(v) && mag2_spec(v) <= SPEED2_LIMIT as int
}

/// A component whose square is at most `m2` is at most `isqrt(m2)` in
/// absolute value.
proof fn lemma_abs_le_isqrt(x: int, m2: int, m: int)
    requires
        x * x <= m2,
        is_isqrt(m2, m),
    ensures
        -m <= x <= m,
{
    assert(-m <= x <= m) by (nonlinear_arith)
        requires
            x * x <= m2,
            is_isqrt(m2, m),
    ;
}

/// `tdiv(a, b)` is bounded by `c` whenever `|a| <= b * c`.
proof fn lemma_tdiv_bound(a: int, b: int, c: int)
    requires
        0 < b,
        0 <= c,
        -(b * c) <= a <= b * c,
    ensures
        -c <= tdiv(a, b) <= c,
{
    if a >= 0 {
        lemma_div_pos_is_pos(a, b);
        lemma_multiply_divide_le(a, b, c);
    } else {
        lemma_div_pos_is_pos(-a, b);
        lemma_multiply_divide_le(-a, b, c);
    }
}

/// `tdiv` of a value in `[0, b * c]` stays in `[0, c]`.
pub proof fn lemma_tdiv_pos_range(a: int, b: int, c: int)
    requires
        0 < b,
        0 <= c,
        0 <= a <= b * c,
    ensures
        0 <= tdiv(a, b) <= c,
{
    lemma_div_pos_is_pos(a, b);
    lemma_multiply_divide_le(a, b, c);
}

/// `tdiv` of a value in `[b * c, 0]` (with `c <= 0`) stays in `[c, 0]`.
pub proof fn lemma_tdiv_neg_range(a: int, b: int, c: int)
    requires
        0 < b,
        c <= 0,
        b * c <= a <= 0,
    ensures
        c <= tdiv(a, b) <= 0,
{
    assert(-(b * c) == b * (-c)) by (nonlinear_arith);
    lemma_div_pos_is_pos(-a, b);
    lemma_multiply_divide_le(-a, b, -c);
}

/// Division truncating toward zero, with a positive divisor.
pub fn div_toward_zero(a: i64, b: i64) -> (q: i64)
    requires
        0 < b,
        i64::MIN < a,
    ensures
        q as int == tdiv(a as int, b as int),
        a >= 0 ==> 0 <= q <= a,
        a <= 0 ==> a <= q <= 0,
{
    if a >= 0 {
        proof {
            lemma_div_pos_is_pos(a as int, b as int);
            lemma_div_nonincreasing(a as int, b as int);
        }
        a / b
    } else {
        let n = -a;
        proof {
            lemma_div_pos_is_pos(n as int, b as int);
            lemma_div_nonincreasing(n as int, b as int);
        }
        -(n / b)
    }
}

/// Remainder that is always nonnegative — the toroidal wrap — matching the
/// spec operator `%`, which is Euclidean.
pub fn euclid_mod(a: i64, m: i64) -> (r: i64)
    requires
        0 < m,
        i64::MIN < a,
    ensures
        r as int == (a as int) % (m as int),
        0 <= r < m,
{
    if a >= 0 {
        a % m
    } else {
        let n = -a;
        let rp = n % m;
        proof {
            lemma_fundamental_div_mod(n as int, m as int);
            let q = (n as int) / (m as int);
            if rp == 0 {
                assert(a as int == (-q) * (m as int) + 0) by (nonlinear_arith)
                    requires
                        n as int == (m as int) * q + rp,
                        rp == 0,
                        a as int == -(n as int),
                ;
                lemma_fundamental_div_mod_converse(a as int, m as int, -q, 0);
            } else {
                assert(a as int == (-q - 1) * (m as int) + (m as int - rp))
                    by (nonlinear_arith)
                    requires
                        n as int == (m as int) * q + rp,
                        a as int == -(n as int),
                ;
                lemma_fundamental_div_mod_converse(a as int, m as int, -q - 1, m - rp);
            }
        }
        if rp == 0 {
            0
        } else {
            m - rp
        }
    }
}

/// Toroidal wrap, spelled out: a point moving forward from inside the
/// world either stays put or comes back in from the other edge — the wrap
/// is a wrap, not a clamp.  In particular a position at `w - h` moving by
/// `v > h` lands at `v - h`.
pub proof fn lemma_wrap_around(p: int, v: int, w: int)
    requires
        0 < w,
        0 <= p < w,
        0 <= v < w,
    ensures
        (p + v) % w == if p + v < w {
            p + v
        } else {
            p + v - w
        },
{
    if p + v < w {
        lemma_fundamental_div_mod_converse(p + v, w, 0, p + v);
    } else {
        lemma_fundamental_div_mod_converse(p + v, w, 1, p + v - w);
    }
}

/// `tdiv` decomposes its argument: the remainder it leaves is smaller than
/// the divisor in absolute value.
proof fn lemma_tdiv_decomp(a: int, b: int)
    requires
        0 < b,
    ensures
        -b < a - b * tdiv(a, b) < b,
{
    if a >= 0 {
        lemma_fundamental_div_mod(a, b);
    } else {
        lemma_fundamental_div_mod(-a, b);
        assert(a - b * tdiv(a, b) == -((-a) - b * ((-a) / b))) by (nonlinear_arith)
            requires
                tdiv(a, b) == -((-a) / b),
        ;
    }
}

/// Steering is aligned with its target direction up to quantization: the
/// cross product of the steered components with the direction is smaller
/// in absolute value than the direction's taxicab norm.  (With exact
/// arithmetic the cross product would be zero: the steered velocity would
/// point exactly along the direction.)
pub proof fn lemma_steer_alignment(v: Velocity, dx: int, dy: int)
    requires
        0 < mag2_xy(dx, dy),
    ensures
        ({
            let s = isqrt_spec(mag2_spec(v));
            let m = isqrt_spec(mag2_xy(dx, dy));
            let rx = tdiv(s * dx, m);
            let ry = tdiv(s * dy, m);
            let bound = vstd::math::abs(dx) + vstd::math::abs(dy);
            -bound < rx * dy - ry * dx < bound
        }),
{
    let d2 = mag2_xy(dx, dy);
    assert(0 <= mag2_spec(v)) by (nonlinear_arith);
    lemma_isqrt_exists(mag2_spec(v));
    lemma_isqrt_exists(d2);
    let s = isqrt_spec(mag2_spec(v));
    let m = isqrt_spec(d2);
    assert(1 <= m) by (nonlinear_arith)
        requires
            is_isqrt(d2, m),
            1 <= d2,
    ;
    let rx = tdiv(s * dx, m);
    let ry = tdiv(s * dy, m);
    lemma_tdiv_decomp(s * dx, m);
    lemma_tdiv_decomp(s * dy, m);
    let px = s * dx - m * rx;
    let py = s * dy - m * ry;
    let bound = vstd::math::abs(dx) + vstd::math::abs(dy);
    assert(m * (rx * dy - ry * dx) == py * dx - px * dy) by (nonlinear_arith)
        requires
            px == s * dx - m * rx,
            py == s * dy - m * ry,
    ;
    assert(1 <= bound) by (nonlinear_arith)
        requires
            0 < dx * dx + dy * dy,
            bound == vstd::math::abs(dx) + vstd::math::abs(dy),
    ;
    assert(-(m * bound) < py * dx - px * dy < m * bound) by (nonlinear_arith)
        requires
            -m < px < m,
            -m < py < m,
            1 <= m,
            1 <= bound,
            bound == vstd::math::abs(dx) + vstd::math::abs(dy),
    ;
    assert(-bound < rx * dy - ry * dx < bound) by (nonlinear_arith)
        requires
            1 <= m,
            -(m * bound) < m * (rx * dy - ry * dx) < m * bound,
    ;
}

impl Position {
    pub fn new(x: i64, y: i64) -> (p: Position)
        ensures
            p.x == x,
            p.y == y,
    {
        Position { x, y }
    }

    /// Squared distance to `other`, exact, in squared milli-units.
    pub fn distance2_to(&self, other: &Position) -> (d: i64)
        requires
            pos_bounded(*self),
            pos_bounded(*other),
        ensures
            d as int == dist2_spec(*self, *other),
            0 <= d,
    {
        let dx = other.x - self.x;
        let dy = other.y - self.y;
        assert(0 <= dx * dx <= 4_000_000_000_000_000_000) by (nonlinear_arith)
            requires
                -2_000_000_000 <= dx <= 2_000_000_000,
        ;
        assert(0 <= dy * dy <= 4_000_000_000_000_000_000) by (nonlinear_arith)
            requires
                -2_000_000_000 <= dy <= 2_000_000_000,
        ;
        dx * dx + dy * dy
    }

    /// Distance to `other`, rounded down, in milli-units.
    pub fn distance_to(&self, other: &Position) -> (d: i64)
        requires
            pos_bounded(*self),
            pos_bounded(*other),
        ensures
            d as int == isqrt_spec(dist2_spec(*self, *other)),
            0 <= d,
    {
        isqrt(self.distance2_to(other))
    }

    /// The unit vector (scaled to magnitude `UNIT`) facing from `self`
    /// toward `other`; the zero vector when the positions coincide.
    pub fn velocity_facing(&self, other: &Position) -> (r: Velocity)
        requires
            pos_bounded(*self),
            pos_bounded(*other),
        ensures
            (r.x as int, r.y as int) == normalize_spec(other.x - self.x, other.y - self.y),
            -UNIT <= r.x <= UNIT,
            -UNIT <= r.y <= UNIT,
    {
        let v = Velocity { x: other.x - self.x, y: other.y - self.y };
        normalize_of(&v)
    }
}

/// The vector `(x, y)` rescaled to magnitude `UNIT`, rounded toward zero;
/// the zero vector when the input is zero.
pub open spec fn normalize_spec(x: int, y: int) -> (int, int) {
    let m2 = mag2_xy(x, y);
    if m2 == 0 {
        (0, 0)
    } else {
        let m = isqrt_spec(m2);
        (tdiv(UNIT * x, m), tdiv(UNIT * y, m))
    }
}

/// Shared body of `Velocity::normalize` and `Position::velocity_facing`.
fn normalize_of(v: &Velocity) -> (r: Velocity)
    requires
        -2_000_000_000 <= v.x <= 2_000_000_000,
        -2_000_000_000 <= v.y <= 2_000_000_000,
    ensures
        (r.x as int, r.y as int) == normalize_spec(v.x as int, v.y as int),
        -UNIT <= r.x <= UNIT,
        -UNIT <= r.y <= UNIT,
{
    assert(0 <= v.x * v.x <= 4_000_000_000_000_000_000 && 0 <= v.y * v.y
        <= 4_000_000_000_000_000_000) by (nonlinear_arith)
        requires
            -2_000_000_000 <= v.x <= 2_000_000_000,
            -2_000_000_000 <= v.y <= 2_000_000_000,
    ;
    let m2 = v.x * v.x + v.y * v.y;
    if m2 == 0 {
        return Velocity { x: 0, y: 0 };
    }
    let m = isqrt(m2);
    proof {
        lemma_abs_le_isqrt(v.x as int, m2 as int, m as int);
        lemma_abs_le_isqrt(v.y as int, m2 as int, m as int);
        assert(-(m as int * 1000) <= 1000 * (v.x as int) <= m as int * 1000)
            by (nonlinear_arith)
            requires
                -(m as int) <= v.x as int <= m as int,
        ;
        assert(-(m as int * 1000) <= 1000 * (v.y as int) <= m as int * 1000)
            by (nonlinear_arith)
            requires
                -(m as int) <= v.y as int <= m as int,
        ;
        lemma_tdiv_bound(1000 * (v.x as int), m as int, 1000);
        lemma_tdiv_bound(1000 * (v.y as int), m as int, 1000);
    }
    let rx = div_toward_zero(1000 * v.x, m);
    let ry = div_toward_zero(1000 * v.y, m);
    Velocity { x: rx, y: ry }
}

/// Steering a velocity to face the direction `(dx, dy)` while keeping its
/// speed: the result points along the direction, its magnitude is the old
/// speed rounded down, and whenever quantization would make it faster than
/// before, the velocity is left unchanged instead.
pub open spec fn steer_spec(v: Velocity, dx: int, dy: int) -> (int, int) {
    let d2 = mag2_xy(dx, dy);
    if d2 == 0 {
        (v.x as int, v.y as int)
    } else {
        let s = isqrt_spec(mag2_spec(v));
        let m = isqrt_spec(d2);
        let rx = tdiv(s * dx, m);
        let ry = tdiv(s * dy, m);
        if mag2_xy(rx, ry) <= mag2_spec(v) {
            (rx, ry)
        } else {
            (v.x as int, v.y as int)
        }
    }
}

impl Velocity {
    pub fn new(x: i64, y: i64) -> (v: Velocity)
        ensures
            v.x == x,
            v.y == y,
    {
        Velocity { x, y }
    }

    /// Squared magnitude, exact, in squared milli-units.
    pub fn mag2(&self) -> (m: i64)
        requires
            vel_bounded(*self),
        ensures
            m as int == mag2_spec(*self),
            0 <= m,
    {
        assert(0 <= self.x * self.x <= 1_000_000_000_000_000_000 && 0 <= self.y * self.y
            <= 1_000_000_000_000_000_000) by (nonlinear_arith)
            requires
                -1_000_000_000 <= self.x <= 1_000_000_000,
                -1_000_000_000 <= self.y <= 1_000_000_000,
        ;
        self.x * self.x + self.y * self.y
    }

    /// The magnitude (the speed of the entity), rounded down, in milli-units.
    pub fn magnitude(&self) -> (m: i64)
        requires
            vel_bounded(*self),
        ensures
            m as int == isqrt_spec(mag2_spec(*self)),
            is_isqrt(mag2_spec(*self), m as int),
            0 <= m,
    {
        isqrt(self.mag2())
    }

    /// The vector rescaled to magnitude `UNIT` (rounded toward zero), or the
    /// zero vector when the magnitude is zero.
    pub fn normalize(&self) -> (r: Velocity)
        requires
            vel_bounded(*self),
        ensures
            (r.x as int, r.y as int) == normalize_spec(self.x as int, self.y as int),
            -UNIT <= r.x <= UNIT,
            -UNIT <= r.y <= UNIT,
    {
        normalize_of(self)
    }

    /// Steer toward the direction `dir` (a vector of magnitude at most
    /// `UNIT`-scale), keeping the current speed: the fixed-point counterpart
    /// of rotating by the angle between the velocity and the direction.
    pub fn rotate_toward(&self, dir: &Velocity) -> (r: Velocity)
        requires
            vel_ok(*self),
            -UNIT <= dir.x <= UNIT,
            -UNIT <= dir.y <= UNIT,
        ensures
            (r.x as int, r.y as int) == steer_spec(*self, dir.x as int, dir.y as int),
            mag2_spec(r) <= mag2_spec(*self),
            vel_ok(r),
    {
        assert(0 <= dir.x * dir.x <= 1_000_000 && 0 <= dir.y * dir.y <= 1_000_000)
            by (nonlinear_arith)
            requires
                -1000 <= dir.x <= 1000,
                -1000 <= dir.y <= 1000,
        ;
        let d2 = dir.x * dir.x + dir.y * dir.y;
        if d2 == 0 {
            return *self;
        }
        let s = self.magnitude();
        proof {
            assert(s as int * (s as int) <= mag2_spec(*self));
            assert(s <= 4_000_000) by (nonlinear_arith)
                requires
                    0 <= s,
                    s as int * (s as int) <= 16_000_000_000_000int,
            ;
        }
        let m = isqrt(d2);
        proof {
            lemma_abs_le_isqrt(dir.x as int, d2 as int, m as int);
            lemma_abs_le_isqrt(dir.y as int, d2 as int, m as int);
            assert(-(s as int * (m as int)) <= s as int * (dir.x as int) <= s as int * (
            m as int) && -(s as int * (m as int)) <= s as int * (dir.y as int) <= s as int
                * (m as int)) by (nonlinear_arith)
                requires
                    0 <= s,
                    -(m as int) <= dir.x as int <= m as int,
                    -(m as int) <= dir.y as int <= m as int,
            ;
            assert(-4_000_000_000int <= s as int * (dir.x as int) <= 4_000_000_000int
                && -4_000_000_000int <= s as int * (dir.y as int) <= 4_000_000_000int)
                by (nonlinear_arith)
                requires
                    0 <= s <= 4_000_000,
                    -1000 <= dir.x <= 1000,
                    -1000 <= dir.y <= 1000,
            ;
            lemma_tdiv_bound(s as int * (dir.x as int), m as int, s as int);
            lemma_tdiv_bound(s as int * (dir.y as int), m as int, s as int);
        }
        let rx = div_toward_zero(s * dir.x, m);
        let ry = div_toward_zero(s * dir.y, m);
        assert(0 <= rx * rx <= 16_000_000_000_000 && 0 <= ry * ry <= 16_000_000_000_000)
            by (nonlinear_arith)
            requires
                -4_000_000 <= rx <= 4_000_000,
                -4_000_000 <= ry <= 4_000_000,
        ;
        let r2 = rx * rx + ry * ry;
        let m2v = self.mag2();
        if r2 <= m2v {
            Velocity { x: rx, y: ry }
        } else {
            *self
        }
    }

    /// The vector with both components negated: facing the opposite way.
    pub fn negate_velocity(self) -> (r: Velocity)
        requires
            vel_bounded(self),
        ensures
            r.x as int == -(self.x as int),
            r.y as int == -(self.y as int),
            mag2_spec(r) == mag2_spec(self),
    {
        proof {
            assert(mag2_xy(-(self.x as int), -(self.y as int)) == mag2_spec(self))
                by (nonlinear_arith)
            ;
        }
        Velocity { x: -self.x, y: -self.y }
    }
}

} // verus!
