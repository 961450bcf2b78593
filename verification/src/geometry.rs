//! Fixed-point plane geometry: points and vectors in micrometres, squared
//! distances, the integer square root and axis-aligned boxes.

use vstd::prelude::*;

verus! {

/// One metre in length units (micrometres). Unit vectors are scaled by the
/// same number.
pub const UNIT: i64 = 1_000_000;

/// Largest magnitude of a coordinate (one kilometre). Within it the squared
/// distance of two points fits in 64 bits.
pub const COORD_LIMIT: i64 = 1_000_000_000;

/// Side of the square world: the world is the open box from 0 to this length
/// on both axes.
pub const WORLD_SIZE: i64 = 80_000_000;

/// A point or a vector of the plane.
#[derive(Clone, Copy, Debug, PartialEq, Eq, Structural)]
pub struct Vec2 {
    pub x: i64,
    pub y: i64,
}

impl Vec2 {
    pub fn new(x: i64, y: i64) -> (r: Vec2)
        ensures
            r.x == x,
            r.y == y,
    {
        Vec2 { x, y }
    }

    /// Both coordinates are within `COORD_LIMIT` of zero.
    pub open spec fn bounded(self) -> bool {
        &&& -COORD_LIMIT <= self.x <= COORD_LIMIT
        &&& -COORD_LIMIT <= self.y <= COORD_LIMIT
    }

    /// The point lies strictly inside the world box.
    pub open spec fn in_world(self) -> bool {
        &&& 0 < self.x < WORLD_SIZE
        &&& 0 < self.y < WORLD_SIZE
    }

    /// Whether both coordinates are within `COORD_LIMIT` of zero.
    pub fn is_bounded(&self) -> (r: bool)
        ensures
            r == self.bounded(),
    {
        -COORD_LIMIT <= self.x && self.x <= COORD_LIMIT && -COORD_LIMIT <= self.y && self.y
            <= COORD_LIMIT
    }

    /// Whether the point lies strictly inside the world box.
    pub fn is_in_world(&self) -> (r: bool)
        ensures
            r == self.in_world(),
    {
        0 < self.x && self.x < WORLD_SIZE && 0 < self.y && self.y < WORLD_SIZE
    }
}

/// Squared Euclidean distance of two points.
pub open spec fn dist2(a: Vec2, b: Vec2) -> int {
    (a.x - b.x) * (a.x - b.x) + (a.y - b.y) * (a.y - b.y)
}

/// A squared distance is not negative.
pub proof fn lemma_dist2_nonnegative(a: Vec2, b: Vec2)
    ensures
        dist2(a, b) >= 0,
{
    let dx = a.x - b.x;
    let dy = a.y - b.y;
    assert(dx * dx >= 0) by (nonlinear_arith);
    assert(dy * dy >= 0) by (nonlinear_arith);
}

/// Squared distances of bounded points are not negative and fit in 64 bits.
pub proof fn lemma_dist2_bounds(a: Vec2, b: Vec2)
    requires
        a.bounded(),
        b.bounded(),
    ensures
        0 <= dist2(a, b) <= 8_000_000_000_000_000_000,
        dist2(a, b) == dist2(b, a),
        dist2(a, b) == 0 <==> a == b,
{
    let dx = a.x - b.x;
    let dy = a.y - b.y;
    assert(0 <= dx * dx <= 4_000_000_000_000_000_000) by (nonlinear_arith)
        requires
            -2_000_000_000 <= dx <= 2_000_000_000,
    ;
    assert(0 <= dy * dy <= 4_000_000_000_000_000_000) by (nonlinear_arith)
        requires
            -2_000_000_000 <= dy <= 2_000_000_000,
    ;
    assert(dx * dx == (-dx) * (-dx)) by (nonlinear_arith);
    assert(dy * dy == (-dy) * (-dy)) by (nonlinear_arith);
    assert(dx * dx == 0 <==> dx == 0) by (nonlinear_arith);
    assert(dy * dy == 0 <==> dy == 0) by (nonlinear_arith);
}

/// Squared Euclidean distance of two bounded points.
pub fn distance_squared(a: Vec2, b: Vec2) -> (d: u64)
    requires
        a.bounded(),
        b.bounded(),
    ensures
        d == dist2(a, b),
{
    proof {
        lemma_dist2_bounds(a, b);
    }
    let dx: i64 = a.x - b.x;
    let dy: i64 = a.y - b.y;
    assert(0 <= dx * dx <= 4_000_000_000_000_000_000) by (nonlinear_arith)
        requires
            -2_000_000_000 <= dx <= 2_000_000_000,
    ;
    assert(0 <= dy * dy <= 4_000_000_000_000_000_000) by (nonlinear_arith)
        requires
            -2_000_000_000 <= dy <= 2_000_000_000,
    ;
    let sx: i64 = dx * dx;
    let sy: i64 = dy * dy;
    (sx + sy) as u64
}

/// `r` is the integer square root of `n`: the largest number whose square
/// does not exceed `n`.
pub open spec fn is_int_sqrt(n: int, r: int) -> bool {
    &&& 0 <= r
    &&& r * r <= n
    &&& n < (r + 1) * (r + 1)
}

/// The integer square root of `n`, for `n` not negative.
pub open spec fn int_sqrt(n: int) -> int {
    choose|r: int| is_int_sqrt(n, r)
}

/// A number has at most one integer square root.
pub proof fn lemma_int_sqrt_unique(n: int, r1: int, r2: int)
    requires
        is_int_sqrt(n, r1),
        is_int_sqrt(n, r2),
    ensures
        r1 == r2,
{
    if r1 < r2 {
        assert((r1 + 1) * (r1 + 1) <= r2 * r2) by (nonlinear_arith)
            requires
                0 <= r1,
                r1 + 1 <= r2,
        ;
    } else if r2 < r1 {
        assert((r2 + 1) * (r2 + 1) <= r1 * r1) by (nonlinear_arith)
            requires
                0 <= r2,
                r2 + 1 <= r1,
        ;
    }
}

/// A witness of the integer square root is the integer square root.
pub proof fn lemma_int_sqrt_is(n: int, r: int)
    requires
        is_int_sqrt(n, r),
    ensures
        int_sqrt(n) == r,
{
    lemma_int_sqrt_unique(n, r, int_sqrt(n));
}

/// The integer square root grows with its argument.
pub proof fn lemma_int_sqrt_monotonic(a: int, ra: int, b: int, rb: int)
    requires
        is_int_sqrt(a, ra),
        is_int_sqrt(b, rb),
        a <= b,
    ensures
        ra <= rb,
{
    if rb < ra {
        assert((rb + 1) * (rb + 1) <= ra * ra) by (nonlinear_arith)
            requires
                0 <= rb,
                rb + 1 <= ra,
        ;
    }
}

/// The integer square root of `n`.
pub fn isqrt(n: u128) -> (r: u64)
    ensures
        is_int_sqrt(n as int, r as int),
        r == int_sqrt(n as int),
{
    let mut lo: u128 = 0;
    let mut hi: u128 = 0x1_0000_0000_0000_0000;
    assert(0x1_0000_0000_0000_0000int * 0x1_0000_0000_0000_0000int
        == 0x1_0000_0000_0000_0000_0000_0000_0000_0000int) by (nonlinear_arith);
    while hi - lo > 1
        invariant
            lo < hi <= 0x1_0000_0000_0000_0000,
            lo * lo <= n,
            n < hi * hi,
        decreases hi - lo,
    {
        let mid: u128 = lo + (hi - lo) / 2;
        assert(mid * mid <= 0xFFFF_FFFF_FFFF_FFFF * 0xFFFF_FFFF_FFFF_FFFF) by (nonlinear_arith)
            requires
                0 <= mid <= 0xFFFF_FFFF_FFFF_FFFF,
        ;
        assert(0xFFFF_FFFF_FFFF_FFFFint * 0xFFFF_FFFF_FFFF_FFFFint
            < 0x1_0000_0000_0000_0000_0000_0000_0000_0000int) by (nonlinear_arith);
        if mid * mid <= n {
            lo = mid;
        } else {
            hi = mid;
        }
    }
    proof {
        assert(hi == lo + 1);
        lemma_int_sqrt_is(n as int, lo as int);
    }
    lo as u64
}

/// An axis-aligned box: a client's region of interest.
#[derive(Clone, Copy, Debug, PartialEq, Eq, Structural)]
pub struct BoundingBox {
    pub min_x: i64,
    pub max_x: i64,
    pub min_y: i64,
    pub max_y: i64,
}

impl BoundingBox {
    /// The point lies in the closed box.
    pub open spec fn covers(self, p: Vec2) -> bool {
        &&& self.min_x <= p.x <= self.max_x
        &&& self.min_y <= p.y <= self.max_y
    }

    /// Whether the point lies in the closed box.
    pub fn contains(&self, p: Vec2) -> (r: bool)
        ensures
            r == self.covers(p),
    {
        self.min_x <= p.x && p.x <= self.max_x && self.min_y <= p.y && p.y <= self.max_y
    }
}

/// Largest magnitude of a component that `normalize` accepts.
pub const NORM_LIMIT: i128 = 0x1000_0000_0000_0000;

/// Division that rounds toward zero, for a positive divisor.
pub open spec fn trunc_div(n: int, d: int) -> int {
    if n >= 0 {
        n / d
    } else {
        -((-n) / d)
    }
}

/// Length of the vector `(x, y)`, rounded down.
pub open spec fn length(x: int, y: int) -> int {
    int_sqrt(x * x + y * y)
}

/// The vector `(x, y)` scaled to the length `UNIT`, each component rounded
/// toward zero. Meant for vectors other than zero.
pub open spec fn unit_vector(x: int, y: int) -> Vec2 {
    Vec2 {
        x: trunc_div(x * UNIT, length(x, y)) as i64,
        y: trunc_div(y * UNIT, length(x, y)) as i64,
    }
}

/// A vector of about unit length: no component exceeds `UNIT` and one of
/// them reaches at least half of it.
pub open spec fn is_unit(v: Vec2) -> bool {
    &&& -UNIT <= v.x <= UNIT
    &&& -UNIT <= v.y <= UNIT
    &&& (v.x <= -UNIT / 2 || v.x >= UNIT / 2 || v.y <= -UNIT / 2 || v.y >= UNIT / 2)
}

/// `|n| * m / d`, rounded down, with the sign of `n`.
pub fn scale_toward_zero(n: i128, m: u64, d: u64) -> (r: i128)
    requires
        -NORM_LIMIT <= n <= NORM_LIMIT,
        d > 0,
    ensures
        r == trunc_div(n * m, d as int),
        n >= 0 ==> 0 <= r <= n * m,
        n <= 0 ==> n * m <= r <= 0,
{
    let mag: u128 = if n >= 0 {
        n as u128
    } else {
        (-n) as u128
    };
    assert(0 <= mag * m <= 0x1000_0000_0000_0000 * 0xFFFF_FFFF_FFFF_FFFF) by (nonlinear_arith)
        requires
            0 <= mag <= 0x1000_0000_0000_0000,
            0 <= m <= 0xFFFF_FFFF_FFFF_FFFF,
    ;
    let scaled: u128 = mag * (m as u128);
    let q: u128 = scaled / (d as u128);
    assert(0 <= q <= scaled) by (nonlinear_arith)
        requires
            q == scaled / (d as u128),
            d >= 1,
            scaled >= 0,
    ;
    if n >= 0 {
        q as i128
    } else {
        assert((-n) * m == -(n * m)) by (nonlinear_arith);
        assert(n * m <= 0) by (nonlinear_arith)
            requires
                n < 0,
                m >= 0,
        ;
        -(q as i128)
    }
}

/// Scaling a vector other than zero to unit length gives a unit vector.
pub proof fn lemma_unit_vector_is_unit(x: int, y: int)
    requires
        x != 0 || y != 0,
    ensures
        is_unit(unit_vector(x, y)),
        length(x, y) >= 1,
        unit_vector(x, y).x == trunc_div(x * UNIT, length(x, y)),
        unit_vector(x, y).y == trunc_div(y * UNIT, length(x, y)),
{
    let n = x * x + y * y;
    let ax = if x >= 0 { x } else { -x };
    let ay = if y >= 0 { y } else { -y };
    assert(ax * ax == x * x) by (nonlinear_arith)
        requires
            ax == x || ax == -x,
    ;
    assert(ay * ay == y * y) by (nonlinear_arith)
        requires
            ay == y || ay == -y,
    ;
    assert(n >= 1) by (nonlinear_arith)
        requires
            n == ax * ax + ay * ay,
            ax >= 0,
            ay >= 0,
            ax >= 1 || ay >= 1,
    ;
    lemma_int_sqrt_exists(n);
    let l = length(x, y);
    assert(is_int_sqrt(n, l));
    assert(l >= 1) by (nonlinear_arith)
        requires
            n >= 1,
            l >= 0,
            n < (l + 1) * (l + 1),
    ;
    lemma_component_quotient(ax, ay, l);
    lemma_component_quotient(ay, ax, l);
    let a = if ax >= ay { ax } else { ay };
    assert(ax * ax <= a * a && ay * ay <= a * a) by (nonlinear_arith)
        requires
            0 <= ax <= a,
            0 <= ay <= a,
    ;
    assert(2 * a >= l) by (nonlinear_arith)
        requires
            a >= 0,
            l >= 1,
            l * l <= ax * ax + ay * ay,
            ax * ax <= a * a,
            ay * ay <= a * a,
    ;
    assert((a * UNIT) / l >= UNIT / 2) by (nonlinear_arith)
        requires
            2 * a >= l,
            l >= 1,
            UNIT == 1_000_000,
    ;
    assert((-x) * UNIT == -(x * UNIT)) by (nonlinear_arith);
    assert((-y) * UNIT == -(y * UNIT)) by (nonlinear_arith);
    assert(x >= 0 ==> x * UNIT >= 0) by (nonlinear_arith)
        requires
            UNIT == 1_000_000,
    ;
    assert(y >= 0 ==> y * UNIT >= 0) by (nonlinear_arith)
        requires
            UNIT == 1_000_000,
    ;
    assert(x < 0 ==> x * UNIT < 0) by (nonlinear_arith)
        requires
            UNIT == 1_000_000,
    ;
    assert(y < 0 ==> y * UNIT < 0) by (nonlinear_arith)
        requires
            UNIT == 1_000_000,
    ;
}

/// A component of a vector is at most the vector's length, so its quotient
/// by the length, scaled by `UNIT`, is at most `UNIT`.
proof fn lemma_component_quotient(a: int, b: int, l: int)
    requires
        a >= 0,
        b >= 0,
        l >= 1,
        is_int_sqrt(a * a + b * b, l),
    ensures
        a <= l,
        0 <= (a * UNIT) / l <= UNIT,
{
    assert(a <= l) by (nonlinear_arith)
        requires
            a >= 0,
            b >= 0,
            l >= 1,
            a * a + b * b < (l + 1) * (l + 1),
    ;
    assert(0 <= (a * UNIT) / l <= UNIT) by (nonlinear_arith)
        requires
            0 <= a <= l,
            l >= 1,
            UNIT == 1_000_000,
    ;
}

/// Every number that is not negative has an integer square root.
pub proof fn lemma_int_sqrt_exists(n: int)
    requires
        n >= 0,
    ensures
        is_int_sqrt(n, int_sqrt(n)),
    decreases n,
{
    if n == 0 {
        assert(is_int_sqrt(0, 0));
    } else {
        lemma_int_sqrt_exists(n - 1);
        let r = int_sqrt(n - 1);
        if n < (r + 1) * (r + 1) {
            assert(is_int_sqrt(n, r));
        } else {
            assert((r + 2) * (r + 2) > (r + 1) * (r + 1)) by (nonlinear_arith)
                requires
                    r >= 0,
            ;
            assert(is_int_sqrt(n, r + 1));
        }
    }
}

/// The vector `(x, y)` scaled to unit length; `None` for the zero vector.
pub fn normalize(x: i128, y: i128) -> (r: Option<Vec2>)
    requires
        -NORM_LIMIT <= x <= NORM_LIMIT,
        -NORM_LIMIT <= y <= NORM_LIMIT,
    ensures
        r.is_none() <==> (x == 0 && y == 0),
        r.is_some() ==> r.unwrap() == unit_vector(x as int, y as int) && is_unit(r.unwrap()),
{
    if x == 0 && y == 0 {
        return None;
    }
    let ax: u128 = if x >= 0 {
        x as u128
    } else {
        (-x) as u128
    };
    let ay: u128 = if y >= 0 {
        y as u128
    } else {
        (-y) as u128
    };
    assert(ax * ax <= 0x1000_0000_0000_0000 * 0x1000_0000_0000_0000) by (nonlinear_arith)
        requires
            0 <= ax <= 0x1000_0000_0000_0000,
    ;
    assert(ay * ay <= 0x1000_0000_0000_0000 * 0x1000_0000_0000_0000) by (nonlinear_arith)
        requires
            0 <= ay <= 0x1000_0000_0000_0000,
    ;
    assert(ax * ax == x * x) by (nonlinear_arith)
        requires
            ax == x || ax == -x,
    ;
    assert(ay * ay == y * y) by (nonlinear_arith)
        requires
            ay == y || ay == -y,
    ;
    let l: u64 = isqrt(ax * ax + ay * ay);
    proof {
        lemma_unit_vector_is_unit(x as int, y as int);
    }
    let ux: i128 = scale_toward_zero(x, UNIT as u64, l);
    let uy: i128 = scale_toward_zero(y, UNIT as u64, l);
    Some(Vec2 { x: ux as i64, y: uy as i64 })
}

/// No component of the difference of two points is longer than their
/// distance, rounded down.
pub proof fn lemma_component_within_distance(a: Vec2, b: Vec2)
    ensures
        is_int_sqrt(dist2(a, b), int_sqrt(dist2(a, b))),
        -int_sqrt(dist2(a, b)) <= a.x - b.x <= int_sqrt(dist2(a, b)),
        -int_sqrt(dist2(a, b)) <= a.y - b.y <= int_sqrt(dist2(a, b)),
        a != b ==> int_sqrt(dist2(a, b)) >= 1,
{
    lemma_dist2_nonnegative(a, b);
    lemma_int_sqrt_exists(dist2(a, b));
    let d = int_sqrt(dist2(a, b));
    let dx = a.x - b.x;
    let dy = a.y - b.y;
    assert(-d <= dx <= d) by (nonlinear_arith)
        requires
            d >= 0,
            dx * dx + dy * dy < (d + 1) * (d + 1),
    ;
    assert(-d <= dy <= d) by (nonlinear_arith)
        requires
            d >= 0,
            dx * dx + dy * dy < (d + 1) * (d + 1),
    ;
}

} // verus!
