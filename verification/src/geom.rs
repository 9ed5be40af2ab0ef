//! Fixed-point planar geometry.
//!
//! Every length in the world is carried as an `i64` count of thousandths
//! of a world unit, so `1000` is one unit. All geometric helpers are
//! exact integer computations; where real-valued geometry would
//! normalize a vector, these helpers divide by the integer square root
//! of the squared length, with a documented fallback when the vector is
//! zero.

use vstd::prelude::*;

verus! {

/// Fixed-point steps per world unit.
pub const MILLI: i64 = 1000;

/// Largest coordinate magnitude the world accepts: one billion units.
pub const COORD_LIMIT: i64 = 1_000_000_000_000;

/// Largest speed magnitude the world accepts, per axis: ten million
/// units per second.
pub const SPEED_LIMIT: i64 = 10_000_000_000;

/// A planar vector (or point) in fixed-point world coordinates.
#[derive(Clone, Copy, Debug, PartialEq, Eq, Structural)]
pub struct Vec2 {
    pub x: i64,
    pub y: i64,
}

/// Whether both coordinates of `v` fit the world's coordinate range.
pub open spec fn coord_in_range(v: Vec2) -> bool {
    -COORD_LIMIT <= v.x <= COORD_LIMIT && -COORD_LIMIT <= v.y <= COORD_LIMIT
}

/// Whether both components of `v` fit the world's speed range.
pub open spec fn speed_in_range(v: Vec2) -> bool {
    -SPEED_LIMIT <= v.x <= SPEED_LIMIT && -SPEED_LIMIT <= v.y <= SPEED_LIMIT
}

impl Vec2 {
    pub fn new(x: i64, y: i64) -> (r: Vec2)
        ensures
            r == (Vec2 { x, y }),
    {
        Vec2 { x, y }
    }

    pub fn zero() -> (r: Vec2)
        ensures
            r == (Vec2 { x: 0, y: 0 }),
    {
        Vec2 { x: 0, y: 0 }
    }

    pub fn add(self, other: Vec2) -> (r: Vec2)
        requires
            i64::MIN <= self.x + other.x <= i64::MAX,
            i64::MIN <= self.y + other.y <= i64::MAX,
        ensures
            r.x == self.x + other.x,
            r.y == self.y + other.y,
    {
        Vec2 { x: self.x + other.x, y: self.y + other.y }
    }

    pub fn sub(self, other: Vec2) -> (r: Vec2)
        requires
            i64::MIN <= self.x - other.x <= i64::MAX,
            i64::MIN <= self.y - other.y <= i64::MAX,
        ensures
            r.x == self.x - other.x,
            r.y == self.y - other.y,
    {
        Vec2 { x: self.x - other.x, y: self.y - other.y }
    }

    /// Rotation by a quarter turn counter-clockwise, the "perpendicular"
    /// used to place fragments beside the parent's line of motion.
    pub fn perp(self) -> (r: Vec2)
        requires
            self.y != i64::MIN,
        ensures
            r.x == -self.y,
            r.y == self.x,
    {
        Vec2 { x: -self.y, y: self.x }
    }
}

/// Squared distance between `a` and `b`, as an unbounded integer.
pub open spec fn dist2(a: Vec2, b: Vec2) -> int {
    (a.x - b.x) * (a.x - b.x) + (a.y - b.y) * (a.y - b.y)
}

/// Squared length of `v`, as an unbounded integer.
pub open spec fn len2(v: Vec2) -> int {
    v.x * v.x + v.y * v.y
}

/// Exact squared distance between two in-range points.
pub fn dist_squared(a: Vec2, b: Vec2) -> (r: i128)
    requires
        coord_in_range(a),
        coord_in_range(b),
    ensures
        r == dist2(a, b),
        0 <= r <= 8_000_000_000_000_000_000_000_000,
{
    let dx: i128 = a.x as i128 - b.x as i128;
    let dy: i128 = a.y as i128 - b.y as i128;
    proof {
        lemma_square_bound(dx as int, 2 * COORD_LIMIT as int);
        lemma_square_bound(dy as int, 2 * COORD_LIMIT as int);
    }
    dx * dx + dy * dy
}

/// A number of magnitude at most `b` has a square of at most `b * b`.
pub proof fn lemma_square_bound(a: int, b: int)
    requires
        -b <= a <= b,
    ensures
        0 <= a * a <= b * b,
{
    assert(0 <= a * a <= b * b) by (nonlinear_arith)
        requires
            -b <= a <= b,
    ;
}

/// Whether `r` is the integer square root of `n`.
pub open spec fn is_sqrt(n: int, r: int) -> bool {
    0 <= r && r * r <= n && n < (r + 1) * (r + 1)
}

/// The integer square root, defined by counting up.
pub open spec fn sqrt_of(n: nat) -> nat
    decreases n,
{
    if n == 0 {
        0
    } else {
        let p = sqrt_of((n - 1) as nat);
        if (p + 1) * (p + 1) <= n {
            p + 1
        } else {
            p
        }
    }
}

/// `sqrt_of` really is the integer square root.
pub proof fn lemma_sqrt_of(n: nat)
    ensures
        is_sqrt(n as int, sqrt_of(n) as int),
    decreases n,
{
    if n > 0 {
        lemma_sqrt_of((n - 1) as nat);
        let p = sqrt_of((n - 1) as nat);
        if (p + 1) * (p + 1) <= n {
            assert(is_sqrt(n as int, (p + 1) as int)) by (nonlinear_arith)
                requires
                    is_sqrt((n - 1) as int, p as int),
                    (p + 1) * (p + 1) <= n,
            ;
        }
    }
}

/// Two integer square roots of the same number are equal.
pub proof fn lemma_sqrt_unique(n: int, r1: int, r2: int)
    requires
        is_sqrt(n, r1),
        is_sqrt(n, r2),
    ensures
        r1 == r2,
{
    assert(r1 == r2) by (nonlinear_arith)
        requires
            is_sqrt(n, r1),
            is_sqrt(n, r2),
    ;
}

/// Upper bound on the argument of `isqrt`.
pub const SQRT_DOM: u128 = 0x4000_0000_0000_0000_0000_0000_0000_0000;

/// Integer square root by bisection.
pub fn isqrt(n: u128) -> (r: u64)
    requires
        n < SQRT_DOM,
    ensures
        r == sqrt_of(n as nat),
        is_sqrt(n as int, r as int),
{
    let mut lo: u128 = 0;
    let mut hi: u128 = 0x8000_0000_0000_0000;
    assert(hi * hi == SQRT_DOM);
    while hi - lo > 1
        invariant
            lo < hi <= 0x8000_0000_0000_0000,
            lo * lo <= n,
            n < hi * hi,
        decreases hi - lo,
    {
        let mid = lo + (hi - lo) / 2;
        proof {
            lemma_square_bound(mid as int, 0x8000_0000_0000_0000 as int);
        }
        if mid * mid <= n {
            lo = mid;
        } else {
            hi = mid;
        }
    }
    proof {
        assert(is_sqrt(n as int, lo as int));
        lemma_sqrt_of(n as nat);
        lemma_sqrt_unique(n as int, lo as int, sqrt_of(n as nat) as int);
    }
    lo as u64
}

/// Integer length of `v`: the integer square root of its squared length.
pub open spec fn ilen(v: Vec2) -> int {
    sqrt_of(len2(v) as nat) as int
}

/// The x component of `v` rescaled to length `l`. When `v` is the zero
/// vector the direction is undefined; the fallback axis is the positive
/// x axis, so the rescaled vector is `(l, 0)`.
pub open spec fn scaled_x(v: Vec2, l: int) -> int {
    if ilen(v) == 0 {
        l
    } else if v.x < 0 {
        -((vstd::math::abs(v.x as int) * l) / ilen(v))
    } else {
        (vstd::math::abs(v.x as int) * l) / ilen(v)
    }
}

/// The y component of `v` rescaled to length `l` (see `scaled_x`).
pub open spec fn scaled_y(v: Vec2, l: int) -> int {
    if ilen(v) == 0 {
        0
    } else if v.y < 0 {
        -((vstd::math::abs(v.y as int) * l) / ilen(v))
    } else {
        (vstd::math::abs(v.y as int) * l) / ilen(v)
    }
}

/// With `0 <= a <= n` and `0 < n`, the quotient `a * l / n` stays within `[0, l]`.
pub proof fn lemma_mul_div_bound(a: int, l: int, n: int)
    requires
        0 <= a <= n,
        0 < n,
        0 <= l,
    ensures
        0 <= (a * l) / n <= l,
        (l * a) / n == (a * l) / n,
{
    assert(0 <= (a * l) / n <= l && (l * a) / n == (a * l) / n) by (nonlinear_arith)
        requires
            0 <= a <= n,
            0 < n,
            0 <= l,
    ;
}

/// Products of bounded non-negative numbers are bounded.
pub proof fn lemma_mul_le(a: int, ca: int, b: int, cb: int)
    requires
        0 <= a <= ca,
        0 <= b <= cb,
    ensures
        0 <= a * b <= ca * cb,
{
    assert(0 <= a * b <= ca * cb) by (nonlinear_arith)
        requires
            0 <= a <= ca,
            0 <= b <= cb,
    ;
}

/// A component of a vector is at most the vector's integer length.
pub proof fn lemma_component_le_ilen(v: Vec2)
    ensures
        vstd::math::abs(v.x as int) <= ilen(v),
        vstd::math::abs(v.y as int) <= ilen(v),
{
    lemma_sqrt_of(len2(v) as nat);
    let n = ilen(v);
    assert(vstd::math::abs(v.x as int) <= n && vstd::math::abs(v.y as int) <= n) by (nonlinear_arith)
        requires
            n >= 0,
            v.x * v.x + v.y * v.y < (n + 1) * (n + 1),
    ;
}

/// `v` rescaled to the direction-preserving vector of length close to
/// `l` (each component is exact integer division; the vector may be a
/// step shorter than `l` from rounding). The zero vector falls back to
/// the positive x axis.
pub fn dir_with_len(v: Vec2, l: i64) -> (r: Vec2)
    requires
        -2 * COORD_LIMIT <= v.x <= 2 * COORD_LIMIT,
        -2 * COORD_LIMIT <= v.y <= 2 * COORD_LIMIT,
        0 <= l <= COORD_LIMIT,
    ensures
        r.x == scaled_x(v, l as int),
        r.y == scaled_y(v, l as int),
        -l <= r.x <= l,
        -l <= r.y <= l,
{
    proof {
        lemma_square_bound(v.x as int, 2 * COORD_LIMIT as int);
        lemma_square_bound(v.y as int, 2 * COORD_LIMIT as int);
        assert((2 * COORD_LIMIT as int) * (2 * COORD_LIMIT as int)
            == 4_000_000_000_000_000_000_000_000) by (nonlinear_arith);
    }
    let n2: u128 = (v.x as i128 * v.x as i128 + v.y as i128 * v.y as i128) as u128;
    proof {
        assert(n2 as int == len2(v));
    }
    let n = isqrt(n2);
    proof {
        assert(n2 as nat == len2(v) as nat);
        assert(n as int == ilen(v));
    }
    if n == 0 {
        let r = Vec2 { x: l, y: 0 };
        proof {
            assert(r.x == scaled_x(v, l as int));
            assert(r.y == scaled_y(v, l as int));
        }
        r
    } else {
        proof {
            lemma_component_le_ilen(v);
            lemma_mul_div_bound(vstd::math::abs(v.x as int) as int, l as int, n as int);
            lemma_mul_div_bound(vstd::math::abs(v.y as int) as int, l as int, n as int);
            lemma_mul_le(
                vstd::math::abs(v.x as int) as int,
                2 * COORD_LIMIT as int,
                l as int,
                COORD_LIMIT as int,
            );
            lemma_mul_le(
                vstd::math::abs(v.y as int) as int,
                2 * COORD_LIMIT as int,
                l as int,
                COORD_LIMIT as int,
            );
        }
        let ax: u128 = (if v.x < 0 { -v.x } else { v.x }) as u128;
        let ay: u128 = (if v.y < 0 { -v.y } else { v.y }) as u128;
        proof {
            assert(ax as int == vstd::math::abs(v.x as int));
            assert(ay as int == vstd::math::abs(v.y as int));
            assert(n as int == ilen(v));
        }
        let sx: i64 = (ax * l as u128 / n as u128) as i64;
        let sy: i64 = (ay * l as u128 / n as u128) as i64;
        proof {
            assert(sx as int == (vstd::math::abs(v.x as int) * l) / ilen(v));
            assert(sy as int == (vstd::math::abs(v.y as int) * l) / ilen(v));
        }
        let r = Vec2 { x: if v.x < 0 { -sx } else { sx }, y: if v.y < 0 { -sy } else { sy } };
        proof {
            assert(r.x == scaled_x(v, l as int));
            assert(r.y == scaled_y(v, l as int));
        }
        r
    }
}

/// Rescaling a vector that is at least as long as the requested
/// length keeps the result's squared length within rounding of the
/// request: the division loses less than one step per component.
pub proof fn lemma_dir_len_close(v: Vec2, l: int, r: Vec2)
    requires
        0 < l,
        l <= ilen(v),
        ilen(v) <= 2 * COORD_LIMIT,
        r.x as int == scaled_x(v, l),
        r.y as int == scaled_y(v, l),
    ensures
        l * l - 4 * l <= len2(r),
        len2(r) * (ilen(v) * ilen(v)) <= l * l * ((ilen(v) + 1) * (ilen(v) + 1)),
{
    let n = ilen(v);
    let ax = vstd::math::abs(v.x as int) as int;
    let ay = vstd::math::abs(v.y as int) as int;
    lemma_component_le_ilen(v);
    lemma_sqrt_of(len2(v) as nat);
    let qx = (ax * l) / n;
    let qy = (ay * l) / n;
    let ex = (ax * l) % n;
    let ey = (ay * l) % n;
    vstd::arithmetic::div_mod::lemma_fundamental_div_mod(ax * l, n);
    vstd::arithmetic::div_mod::lemma_fundamental_div_mod(ay * l, n);
    vstd::arithmetic::div_mod::lemma_mod_bound(ax * l, n);
    vstd::arithmetic::div_mod::lemma_mod_bound(ay * l, n);
    assert(ax * ax == v.x * v.x && ay * ay == v.y * v.y) by (nonlinear_arith)
        requires
            ax == v.x || ax == -(v.x as int),
            ay == v.y || ay == -(v.y as int),
    ;
    assert(n * n <= ax * ax + ay * ay < (n + 1) * (n + 1));
    assert(r.x as int == qx || r.x as int == -qx);
    assert(r.y as int == qy || r.y as int == -qy);
    assert(len2(r) == qx * qx + qy * qy) by (nonlinear_arith)
        requires
            (r.x as int == qx || r.x as int == -qx) && (r.y as int == qy || r.y as int == -qy),
            len2(r) == r.x * r.x + r.y * r.y,
    ;
    assert(n * n * (qx * qx + qy * qy) == (ax * l - ex) * (ax * l - ex) + (ay * l - ey) * (ay * l
        - ey)) by (nonlinear_arith)
        requires
            ax * l == n * qx + ex,
            ay * l == n * qy + ey,
    ;
    assert(n * n * (qx * qx + qy * qy) <= l * l * ((n + 1) * (n + 1))) by (nonlinear_arith)
        requires
            n * n * (qx * qx + qy * qy) == (ax * l - ex) * (ax * l - ex) + (ay * l - ey) * (ay * l
                - ey),
            0 <= ex <= ax * l,
            0 <= ey <= ay * l,
            ax * ax + ay * ay < (n + 1) * (n + 1),
            0 <= ax,
            0 <= ay,
            0 < l,
    ;
    assert(len2(r) * (n * n) <= l * l * ((n + 1) * (n + 1))) by (nonlinear_arith)
        requires
            len2(r) == qx * qx + qy * qy,
            n * n * (qx * qx + qy * qy) <= l * l * ((n + 1) * (n + 1)),
    ;
    assert((ax * l - ex) * (ax * l - ex) >= (ax * l) * (ax * l) - 2 * (ax * l) * n)
        by (nonlinear_arith)
        requires
            0 <= ex < n,
            0 <= ax * l,
    ;
    assert((ay * l - ey) * (ay * l - ey) >= (ay * l) * (ay * l) - 2 * (ay * l) * n)
        by (nonlinear_arith)
        requires
            0 <= ey < n,
            0 <= ay * l,
    ;
    assert((ax * l) * (ax * l) + (ay * l) * (ay * l) == l * l * (ax * ax + ay * ay))
        by (nonlinear_arith);
    assert(l * l * (ax * ax + ay * ay) >= l * l * (n * n)) by (nonlinear_arith)
        requires
            ax * ax + ay * ay >= n * n,
            0 <= l,
    ;
    assert(2 * (ax * l) * n + 2 * (ay * l) * n <= 4 * l * (n * n)) by (nonlinear_arith)
        requires
            0 <= ax <= n,
            0 <= ay <= n,
            0 <= l,
            0 <= n,
    ;
    assert(n * n * (qx * qx + qy * qy) >= l * l * (n * n) - 4 * l * (n * n));
    assert(l * l - 4 * l <= len2(r)) by (nonlinear_arith)
        requires
            len2(r) == qx * qx + qy * qy,
            n * n * (qx * qx + qy * qy) >= l * l * (n * n) - 4 * l * (n * n),
            0 < n,
    ;
}

/// `a * f / 1000` with truncation toward zero, the product of a
/// thousandths factor and a length.
pub open spec fn milli_scaled(a: int, f: int) -> int {
    if a < 0 {
        -((vstd::math::abs(a) * f) / 1000)
    } else {
        (a * f) / 1000
    }
}

/// Scales a thousandths direction `v` by the length `f`: the result is
/// `v * f / 1000` componentwise, no longer than `f` per axis.
pub fn scale_milli(v: Vec2, f: i64) -> (r: Vec2)
    requires
        -1000 <= v.x <= 1000,
        -1000 <= v.y <= 1000,
        0 <= f <= COORD_LIMIT,
    ensures
        r.x == milli_scaled(v.x as int, f as int),
        r.y == milli_scaled(v.y as int, f as int),
        -f <= r.x <= f,
        -f <= r.y <= f,
{
    proof {
        lemma_mul_div_bound(vstd::math::abs(v.x as int) as int, f as int, 1000);
        lemma_mul_div_bound(vstd::math::abs(v.y as int) as int, f as int, 1000);
    }
    let ax: u128 = (if v.x < 0 { -v.x } else { v.x }) as u128;
    let ay: u128 = (if v.y < 0 { -v.y } else { v.y }) as u128;
    let sx: i64 = (ax * f as u128 / 1000) as i64;
    let sy: i64 = (ay * f as u128 / 1000) as i64;
    Vec2 { x: if v.x < 0 { -sx } else { sx }, y: if v.y < 0 { -sy } else { sy } }
}

/// The x coordinate after moving `p` one step of length `step` toward
/// `t`: the move is clipped at `t`, and when the two points coincide
/// the mover is already at its target.
pub open spec fn move_toward_x(p: Vec2, t: Vec2, step: int) -> int {
    let d = sqrt_of(dist2(p, t) as nat) as int;
    if d <= step {
        t.x as int
    } else if t.x < p.x {
        p.x - (vstd::math::abs(t.x - p.x) * step) / d
    } else {
        p.x + (vstd::math::abs(t.x - p.x) * step) / d
    }
}

/// The y coordinate after moving `p` one step of length `step` toward `t`.
pub open spec fn move_toward_y(p: Vec2, t: Vec2, step: int) -> int {
    let d = sqrt_of(dist2(p, t) as nat) as int;
    if d <= step {
        t.y as int
    } else if t.y < p.y {
        p.y - (vstd::math::abs(t.y - p.y) * step) / d
    } else {
        p.y + (vstd::math::abs(t.y - p.y) * step) / d
    }
}

/// Moves `p` by `step` toward `t` without overshooting: each resulting
/// coordinate stays between the corresponding coordinates of `p` and `t`.
pub fn move_toward(p: Vec2, t: Vec2, step: i64) -> (r: Vec2)
    requires
        coord_in_range(p),
        coord_in_range(t),
        0 <= step <= COORD_LIMIT,
    ensures
        r.x == move_toward_x(p, t, step as int),
        r.y == move_toward_y(p, t, step as int),
        coord_in_range(r),
        vstd::math::abs(r.x - t.x) <= vstd::math::abs(p.x - t.x),
        vstd::math::abs(r.y - t.y) <= vstd::math::abs(p.y - t.y),
{
    let d2 = dist_squared(p, t);
    let d = isqrt(d2 as u128);
    if d <= step as u64 {
        t
    } else {
        proof {
            let delta = Vec2 { x: (p.x - t.x) as i64, y: (p.y - t.y) as i64 };
            assert(len2(delta) == dist2(p, t));
            lemma_component_le_ilen(delta);
            assert(vstd::math::abs(t.x - p.x) == vstd::math::abs(p.x - t.x));
            assert(vstd::math::abs(t.y - p.y) == vstd::math::abs(p.y - t.y));
            lemma_mul_div_bound(step as int, vstd::math::abs(t.x - p.x) as int, d as int);
            lemma_mul_div_bound(step as int, vstd::math::abs(t.y - p.y) as int, d as int);
            lemma_mul_le(vstd::math::abs(t.x - p.x) as int, 2 * COORD_LIMIT as int, step as int, COORD_LIMIT as int);
            lemma_mul_le(vstd::math::abs(t.y - p.y) as int, 2 * COORD_LIMIT as int, step as int, COORD_LIMIT as int);
        }
        let dx: u128 = (if t.x < p.x { p.x - t.x } else { t.x - p.x }) as u128;
        let dy: u128 = (if t.y < p.y { p.y - t.y } else { t.y - p.y }) as u128;
        let sx: i64 = (dx * step as u128 / d as u128) as i64;
        let sy: i64 = (dy * step as u128 / d as u128) as i64;
        let mx: i64 = if t.x < p.x { p.x - sx } else { p.x + sx };
        let my: i64 = if t.y < p.y { p.y - sy } else { p.y + sy };
        Vec2 { x: mx, y: my }
    }
}

} // verus!
