//! Positions in fixed-point world space and the distance and grid arithmetic
//! on them.

use vstd::prelude::*;
use vstd::arithmetic::div_mod::lemma_fundamental_div_mod;
use vstd::arithmetic::div_mod::lemma_fundamental_div_mod_converse;

verus! {

/// Number of sub-units in one world unit.
pub const UNIT: i32 = 1000;

/// The largest chunk edge, in world units, whose length in sub-units still
/// fits a coordinate.
pub const MAX_CHUNK_SIZE: i32 = 2_147_483;

/// A position in world space, each coordinate in sub-units.
#[derive(Clone, Copy, Debug, PartialEq, Eq, Structural)]
pub struct Point3 {
    pub x: i32,
    pub y: i32,
    pub z: i32,
}

/// The square of the Euclidean distance between `a` and `b`.
pub open spec fn distance_squared(a: Point3, b: Point3) -> int {
    (a.x - b.x) * (a.x - b.x) + (a.y - b.y) * (a.y - b.y) + (a.z - b.z) * (a.z - b.z)
}

/// `a` lies strictly farther from `b` than `threshold`. A point at exactly
/// `threshold` is not farther.
pub open spec fn farther_than(a: Point3, b: Point3, threshold: u32) -> bool {
    distance_squared(a, b) > threshold * threshold
}

/// `value` brought into the range of a coordinate.
pub open spec fn clamp_coordinate(value: int) -> int {
    if value < i32::MIN {
        i32::MIN as int
    } else if value > i32::MAX {
        i32::MAX as int
    } else {
        value
    }
}

/// The grid cell of edge `edge` that holds `position`: the one integer `c`
/// with `c * edge <= position < (c + 1) * edge`.
pub open spec fn grid_cell(position: int, edge: int) -> int
    recommends
        edge > 0,
{
    position / edge
}

/// The span of the cell that `grid_cell` names holds the position.
pub proof fn lemma_grid_cell_bounds(position: int, edge: int)
    requires
        edge > 0,
    ensures
        grid_cell(position, edge) * edge <= position < (grid_cell(position, edge) + 1) * edge,
{
    lemma_fundamental_div_mod(position, edge);
    assert((position / edge + 1) * edge == (position / edge) * edge + edge) by (nonlinear_arith);
    assert((position / edge) * edge == edge * (position / edge)) by (nonlinear_arith);
}

/// A cell whose span holds the position is the one that `grid_cell` names.
pub proof fn lemma_grid_cell_unique(position: int, edge: int, c: int)
    requires
        edge > 0,
        c * edge <= position < (c + 1) * edge,
    ensures
        c == grid_cell(position, edge),
{
    let r = position - c * edge;
    assert((c + 1) * edge == c * edge + edge) by (nonlinear_arith);
    assert(c * edge == edge * c) by (nonlinear_arith);
    lemma_fundamental_div_mod_converse(position, edge, c, r);
}

fn square_of_difference(a: i32, b: i32) -> (r: u128)
    ensures
        r == (a - b) * (a - b),
        r <= 0xffff_ffff * 0xffff_ffff,
{
    let d: i64 = a as i64 - b as i64;
    let w: u128 = if d < 0 {
        (-d) as u128
    } else {
        d as u128
    };
    assert(w * w == (a - b) * (a - b)) by (nonlinear_arith)
        requires
            w == a - b || w == -(a - b),
    ;
    assert(w * w <= 0xffff_ffff * 0xffff_ffff) by (nonlinear_arith)
        requires
            w <= 0xffff_ffff,
    ;
    w * w
}

/// Tells whether `a` lies strictly farther from `b` than `threshold`.
pub fn is_farther_than(a: Point3, b: Point3, threshold: u32) -> (r: bool)
    ensures
        r == farther_than(a, b, threshold),
{
    let dx = square_of_difference(a.x, b.x);
    let dy = square_of_difference(a.y, b.y);
    let dz = square_of_difference(a.z, b.z);
    let t: u128 = threshold as u128;
    assert(t * t <= 0xffff_ffff * 0xffff_ffff) by (nonlinear_arith)
        requires
            t <= 0xffff_ffff,
    ;
    dx + dy + dz > t * t
}

/// The coordinate of the chunk that holds `position`, for square chunks of
/// `chunk_size` world units.
pub fn chunk_coordinate(position: i32, chunk_size: i32) -> (c: i32)
    requires
        0 < chunk_size <= MAX_CHUNK_SIZE,
    ensures
        c == grid_cell(position as int, chunk_size * UNIT),
{
    let edge: i64 = chunk_size as i64 * UNIT as i64;
    let p: i64 = position as i64;
    if p >= 0 {
        let q = p / edge;
        proof {
            lemma_fundamental_div_mod(p as int, edge as int);
            assert(0 <= q <= p) by (nonlinear_arith)
                requires
                    p == edge * q + (p as int % edge as int),
                    0 <= (p as int % edge as int) < edge,
                    edge >= 1000,
                    p >= 0,
            ;
        }
        q as i32
    } else {
        let n: i64 = -p - 1;
        let q = n / edge;
        proof {
            lemma_fundamental_div_mod(n as int, edge as int);
            let m = n as int % edge as int;
            assert(0 <= q <= n) by (nonlinear_arith)
                requires
                    n == edge * q + m,
                    0 <= m < edge,
                    edge >= 1000,
                    n >= 0,
            ;
            let c = -q - 1;
            assert(c * edge <= p < (c + 1) * edge) by (nonlinear_arith)
                requires
                    c == -q - 1,
                    n == edge * q + m,
                    0 <= m < edge,
                    n == -p - 1,
            ;
            lemma_grid_cell_unique(p as int, edge as int, c);
        }
        (-q - 1) as i32
    }
}

/// `p` moved by `dx` along the x axis; the coordinate stops at the end of its
/// range.
pub fn shifted_x(p: Point3, dx: i32) -> (r: Point3)
    ensures
        r.x == clamp_coordinate(p.x + dx),
        r.y == p.y,
        r.z == p.z,
{
    let sum: i64 = p.x as i64 + dx as i64;
    let x: i32 = if sum < i32::MIN as i64 {
        i32::MIN
    } else if sum > i32::MAX as i64 {
        i32::MAX
    } else {
        sum as i32
    };
    Point3 { x, y: p.y, z: p.z }
}

} // verus!
