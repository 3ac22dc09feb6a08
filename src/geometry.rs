use vstd::prelude::*;

verus! {

/// Largest magnitude of a ground coordinate, in fixed-point ground units.
pub const COORD_LIMIT: i64 = 1_000_000_000;

/// A position on the ground plane (the X/Z axes of the world), in fixed-point
/// ground units.
#[derive(Clone, Copy, Debug, PartialEq, Eq, Structural)]
pub struct GroundPoint {
    pub x: i64,
    pub z: i64,
}

impl GroundPoint {
    /// Both coordinates lie within `COORD_LIMIT`.
    pub open spec fn wf(self) -> bool {
        -COORD_LIMIT <= self.x <= COORD_LIMIT && -COORD_LIMIT <= self.z <= COORD_LIMIT
    }

    pub fn new(x: i64, z: i64) -> (r: GroundPoint)
        ensures
            r.x == x,
            r.z == z,
    {
        GroundPoint { x, z }
    }
}

/// A pointer position in screen pixels.
#[derive(Clone, Copy, Debug, PartialEq, Eq, Structural)]
pub struct ScreenPoint {
    pub x: i32,
    pub y: i32,
}

impl ScreenPoint {
    pub fn new(x: i32, y: i32) -> (r: ScreenPoint)
        ensures
            r.x == x,
            r.y == y,
    {
        ScreenPoint { x, y }
    }
}

pub open spec fn min_of(a: int, b: int) -> int {
    if a <= b { a } else { b }
}

pub open spec fn max_of(a: int, b: int) -> int {
    if a <= b { b } else { a }
}

fn min_i64(a: i64, b: i64) -> (r: i64)
    ensures
        r == min_of(a as int, b as int),
{
    if a <= b { a } else { b }
}

fn max_i64(a: i64, b: i64) -> (r: i64)
    ensures
        r == max_of(a as int, b as int),
{
    if a <= b { b } else { a }
}

/// An axis-aligned rectangle on the ground plane, with closed bounds.
#[derive(Clone, Copy, Debug, PartialEq, Eq, Structural)]
pub struct GroundRect {
    pub min_x: i64,
    pub max_x: i64,
    pub min_z: i64,
    pub max_z: i64,
}

/// The rectangle spanned by two opposite corners, whichever two they are.
pub open spec fn rect_spec(a: GroundPoint, b: GroundPoint) -> GroundRect {
    GroundRect {
        min_x: min_of(a.x as int, b.x as int) as i64,
        max_x: max_of(a.x as int, b.x as int) as i64,
        min_z: min_of(a.z as int, b.z as int) as i64,
        max_z: max_of(a.z as int, b.z as int) as i64,
    }
}

impl GroundRect {
    /// A point lies in the rectangle, bounds included.
    pub open spec fn contains_spec(self, p: GroundPoint) -> bool {
        self.min_x <= p.x <= self.max_x && self.min_z <= p.z <= self.max_z
    }

    /// The rectangle with the two points as opposite corners.
    pub fn from_corners(a: GroundPoint, b: GroundPoint) -> (r: GroundRect)
        ensures
            r == rect_spec(a, b),
            r.min_x <= r.max_x,
            r.min_z <= r.max_z,
    {
        GroundRect {
            min_x: min_i64(a.x, b.x),
            max_x: max_i64(a.x, b.x),
            min_z: min_i64(a.z, b.z),
            max_z: max_i64(a.z, b.z),
        }
    }

    pub fn contains(&self, p: GroundPoint) -> (r: bool)
        ensures
            r == self.contains_spec(p),
    {
        self.min_x <= p.x && p.x <= self.max_x && self.min_z <= p.z && p.z <= self.max_z
    }
}

/// `r` is the square root of `n`, rounded down.
pub open spec fn is_floor_sqrt(n: int, r: int) -> bool {
    0 <= r && r * r <= n < (r + 1) * (r + 1)
}

/// The square root of `n`, rounded down.
pub open spec fn floor_sqrt(n: int) -> int {
    choose|r: int| is_floor_sqrt(n, r)
}

/// Squared distance between two ground points.
pub open spec fn dist_sq(p: GroundPoint, d: GroundPoint) -> int {
    (d.x - p.x) * (d.x - p.x) + (d.z - p.z) * (d.z - p.z)
}

/// `c * s / dist`, rounded toward zero.
pub open spec fn scaled(c: int, s: int, dist: int) -> int {
    if c >= 0 {
        c * s / dist
    } else {
        -((-c) * s / dist)
    }
}

pub open spec fn min_int(a: int, b: int) -> int {
    if a <= b { a } else { b }
}

/// The floor square root is unique.
pub proof fn lemma_floor_sqrt_unique(n: int, r: int)
    requires
        is_floor_sqrt(n, r),
    ensures
        floor_sqrt(n) == r,
{
    let q = floor_sqrt(n);
    assert(is_floor_sqrt(n, q));
    if q < r {
        assert((q + 1) * (q + 1) <= r * r) by (nonlinear_arith)
            requires
                0 <= q < r,
        ;
    } else if r < q {
        assert((r + 1) * (r + 1) <= q * q) by (nonlinear_arith)
            requires
                0 <= r < q,
        ;
    }
}

/// A share `s / dist` (at most one) of `c` lies between zero and `c`.
pub proof fn lemma_scaled_bounds(c: int, s: int, dist: int)
    requires
        0 <= s <= dist,
        0 < dist,
    ensures
        s == 0 ==> scaled(c, s, dist) == 0,
        c >= 0 ==> 0 <= scaled(c, s, dist) <= c,
        c < 0 ==> c <= scaled(c, s, dist) <= 0,
        s == dist ==> scaled(c, s, dist) == c,
{
    let a = if c >= 0 { c } else { -c };
    assert(0 <= a * s <= a * dist) by (nonlinear_arith)
        requires
            0 <= a,
            0 <= s <= dist,
    ;
    assert((a * dist) / dist == a) by (nonlinear_arith)
        requires
            0 < dist,
    ;
    vstd::arithmetic::div_mod::lemma_div_is_ordered(a * s, a * dist, dist);
    vstd::arithmetic::div_mod::lemma_div_pos_is_pos(a * s, dist);
}

/// Squared distance between two ground points.
pub fn distance_sq(p: GroundPoint, d: GroundPoint) -> (r: u64)
    requires
        p.wf(),
        d.wf(),
    ensures
        r as int == dist_sq(p, d),
        r <= 8_000_000_000_000_000_000,
{
    let dx: i64 = d.x - p.x;
    let dz: i64 = d.z - p.z;
    let ax: u64 = if dx >= 0 { dx as u64 } else { (-dx) as u64 };
    let az: u64 = if dz >= 0 { dz as u64 } else { (-dz) as u64 };
    assert(ax * ax <= 4_000_000_000_000_000_000 && az * az <= 4_000_000_000_000_000_000)
        by (nonlinear_arith)
        requires
            ax <= 2_000_000_000,
            az <= 2_000_000_000,
    ;
    let n: u64 = ax * ax + az * az;
    assert(n as int == dist_sq(p, d)) by (nonlinear_arith)
        requires
            ax as int == if dx >= 0 { dx as int } else { -dx },
            az as int == if dz >= 0 { dz as int } else { -dz },
            n as int == ax * ax + az * az,
            dx == d.x - p.x,
            dz == d.z - p.z,
    ;
    n
}

/// The square root of `n`, rounded down.
pub fn isqrt(n: u64) -> (r: u64)
    requires
        n <= 8_000_000_000_000_000_000,
    ensures
        is_floor_sqrt(n as int, r as int),
        r <= 3_000_000_000,
{
    let mut lo: u64 = 0;
    let mut hi: u64 = 3_000_000_000;
    assert(hi * hi == 9_000_000_000_000_000_000);
    while hi - lo > 1
        invariant
            lo < hi <= 3_000_000_000,
            lo * lo <= n,
            n < hi * hi,
        decreases hi - lo,
    {
        let mid = lo + (hi - lo) / 2;
        assert(mid * mid <= 9_000_000_000_000_000_000) by (nonlinear_arith)
            requires
                mid <= 3_000_000_000,
        ;
        if mid * mid <= n {
            lo = mid;
        } else {
            hi = mid;
        }
    }
    lo
}

/// `c * s / dist` rounded toward zero, for `s <= dist`.
pub fn scale(c: i64, s: u64, dist: u64) -> (r: i64)
    requires
        -2 * COORD_LIMIT <= c <= 2 * COORD_LIMIT,
        s <= dist <= 3_000_000_000,
        0 < dist,
    ensures
        r == scaled(c as int, s as int, dist as int),
{
    proof {
        lemma_scaled_bounds(c as int, s as int, dist as int);
    }
    let a: u64 = if c >= 0 { c as u64 } else { (-c) as u64 };
    assert(a * s <= 6_000_000_000_000_000_000) by (nonlinear_arith)
        requires
            a <= 2_000_000_000,
            s <= 3_000_000_000,
    ;
    let q = a * s / dist;
    if c >= 0 {
        q as i64
    } else {
        -(q as i64)
    }
}

/// A squared distance is non-negative and has a floor square root, which is
/// zero only between equal points.
pub proof fn lemma_dist_root(p: GroundPoint, d: GroundPoint)
    ensures
        dist_sq(p, d) >= 0,
        is_floor_sqrt(dist_sq(p, d), floor_sqrt(dist_sq(p, d))),
        floor_sqrt(dist_sq(p, d)) == 0 ==> p == d,
{
    let dx = d.x - p.x;
    let dz = d.z - p.z;
    assert(dist_sq(p, d) >= 0 && (dist_sq(p, d) < 1 ==> dx == 0 && dz == 0)) by (nonlinear_arith)
        requires
            dist_sq(p, d) == dx * dx + dz * dz,
    ;
    lemma_floor_sqrt_exists(dist_sq(p, d));
}

/// Between points within `COORD_LIMIT` the squared distance is at most
/// `8 * 10^18` and its floor square root at most `3 * 10^9`.
pub proof fn lemma_route_bound(p: GroundPoint, d: GroundPoint)
    requires
        p.wf(),
        d.wf(),
    ensures
        0 <= dist_sq(p, d) <= 8_000_000_000_000_000_000,
        0 <= floor_sqrt(dist_sq(p, d)) <= 3_000_000_000,
{
    lemma_dist_root(p, d);
    let dx = d.x - p.x;
    let dz = d.z - p.z;
    assert(dist_sq(p, d) <= 8_000_000_000_000_000_000) by (nonlinear_arith)
        requires
            dist_sq(p, d) == dx * dx + dz * dz,
            -2_000_000_000 <= dx <= 2_000_000_000,
            -2_000_000_000 <= dz <= 2_000_000_000,
    ;
    let r = floor_sqrt(dist_sq(p, d));
    assert(r <= 3_000_000_000) by (nonlinear_arith)
        requires
            0 <= r,
            r * r <= 8_000_000_000_000_000_000,
    ;
}

/// Every non-negative integer has a floor square root.
pub proof fn lemma_floor_sqrt_exists(n: int)
    requires
        n >= 0,
    ensures
        is_floor_sqrt(n, floor_sqrt(n)),
{
    assert((n + 1) * (n + 1) > n) by (nonlinear_arith)
        requires
            n >= 0,
    ;
    let r = floor_sqrt_upto(n, n + 1);
    assert(is_floor_sqrt(n, r));
}

/// The largest `r < bound` with `r * r <= n`, given that `bound * bound > n`.
proof fn floor_sqrt_upto(n: int, bound: int) -> (r: int)
    requires
        n >= 0,
        bound >= 1,
        bound * bound > n,
    ensures
        is_floor_sqrt(n, r),
    decreases bound,
{
    if (bound - 1) * (bound - 1) <= n {
        bound - 1
    } else {
        floor_sqrt_upto(n, bound - 1)
    }
}

} // verus!
