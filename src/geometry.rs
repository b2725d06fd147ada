//! Fixed-point plane geometry shared by every part of the game.
//!
//! Coordinates are integers counting thousandths of a world unit, so the
//! simulation is exact and reproducible on every machine.
use vstd::prelude::*;

verus! {

/// Number of fixed-point steps in one world unit.
pub const UNIT: i64 = 1000;

/// Largest magnitude of a coordinate; positions are kept inside this box.
pub const WORLD_LIMIT: i64 = 1_000_000_000_000_000;

/// A point or a vector of the plane, in fixed-point units.
#[derive(Clone, Copy, Debug, PartialEq, Eq, Structural)]
pub struct Point {
    pub x: i64,
    pub y: i64,
}

pub open spec fn coord_in_world(v: int) -> bool {
    -WORLD_LIMIT <= v <= WORLD_LIMIT
}

pub open spec fn in_world(p: Point) -> bool {
    coord_in_world(p.x as int) && coord_in_world(p.y as int)
}

/// Squared Euclidean distance between two points.
pub open spec fn dist_sq(a: Point, b: Point) -> int {
    (a.x - b.x) * (a.x - b.x) + (a.y - b.y) * (a.y - b.y)
}

/// Squared length of a vector.
pub open spec fn norm_sq(v: Point) -> int {
    v.x * v.x + v.y * v.y
}

/// Division that rounds toward zero, as integer division does in Rust.
pub open spec fn trunc_div(a: int, d: int) -> int {
    if a >= 0 {
        a / d
    } else {
        -((-a) / d)
    }
}

/// A value forced into the world's coordinate range.
pub open spec fn clamp_coord_spec(v: int) -> int {
    if v < -WORLD_LIMIT {
        -WORLD_LIMIT as int
    } else if v > WORLD_LIMIT {
        WORLD_LIMIT as int
    } else {
        v
    }
}

/// The point reached from `p` by moving along `v`, held inside the world.
pub open spec fn step_spec(p: Point, v: Point) -> Point {
    Point {
        x: clamp_coord_spec(p.x + v.x) as i64,
        y: clamp_coord_spec(p.y + v.y) as i64,
    }
}

impl Point {
    pub fn new(x: i64, y: i64) -> (r: Point)
        ensures
            r == (Point { x, y }),
    {
        Point { x, y }
    }
}

pub fn trunc_div_i128(a: i128, d: i128) -> (r: i128)
    requires
        d > 0,
        a > i128::MIN,
    ensures
        r == trunc_div(a as int, d as int),
{
    if a >= 0 {
        a / d
    } else {
        assert(-(a as int) <= i128::MAX + 1);
        let m: u128 = (0i128 - (a + 1)) as u128 + 1;
        let q: u128 = m / (d as u128);
        assert(q <= m) by (nonlinear_arith)
            requires
                q == m / (d as u128),
                d >= 1,
        ;
        0i128 - (q as i128)
    }
}

pub fn clamp_coord(v: i128) -> (r: i64)
    ensures
        r == clamp_coord_spec(v as int),
        coord_in_world(r as int),
{
    if v < -(WORLD_LIMIT as i128) {
        -WORLD_LIMIT
    } else if v > WORLD_LIMIT as i128 {
        WORLD_LIMIT
    } else {
        v as i64
    }
}

/// Moves `p` by `v`; a move that would leave the world stops at its edge.
pub fn step_point(p: Point, v: Point) -> (r: Point)
    ensures
        r == step_spec(p, v),
        in_world(r),
{
    Point { x: clamp_coord(p.x as i128 + v.x as i128), y: clamp_coord(p.y as i128 + v.y as i128) }
}

pub proof fn lemma_square_bound(a: int, b: int)
    requires
        -b <= a <= b,
    ensures
        0 <= a * a <= b * b,
{
    assert(0 <= a * a <= b * b) by (nonlinear_arith)
        requires
            -b <= a <= b,
    ;
}

/// Squared distance of two points of the world.
pub fn distance_sq(a: Point, b: Point) -> (r: i128)
    requires
        in_world(a),
        in_world(b),
    ensures
        r == dist_sq(a, b),
{
    let dx: i128 = a.x as i128 - b.x as i128;
    let dy: i128 = a.y as i128 - b.y as i128;
    proof {
        lemma_square_bound(dx as int, 2 * WORLD_LIMIT);
        lemma_square_bound(dy as int, 2 * WORLD_LIMIT);
    }
    dx * dx + dy * dy
}

/// Integer square root: the largest `r` with `r * r <= n`.
pub fn isqrt(n: u128) -> (r: u64)
    requires
        n < 0x1000_0000_0000_0000 * 0x1000_0000_0000_0000,
    ensures
        r * r <= n < (r + 1) * (r + 1),
{
    let mut lo: u128 = 0;
    let mut hi: u128 = 0x1000_0000_0000_0000;
    while lo + 1 < hi
        invariant
            lo < hi <= 0x1000_0000_0000_0000,
            lo * lo <= n,
            n < hi * hi,
        decreases hi - lo,
    {
        let mid: u128 = lo + (hi - lo) / 2;
        assert(mid * mid <= 0x1000_0000_0000_0000 * 0x1000_0000_0000_0000) by (nonlinear_arith)
            requires
                mid <= 0x1000_0000_0000_0000,
        ;
        let sq: u128 = mid * mid;
        if sq <= n {
            lo = mid;
        } else {
            hi = mid;
        }
    }
    lo as u64
}

} // verus!
