//! The geometry adapter: applies a pose (exact rational rotation followed by
//! translation) to local-space polygon vertices, landing results back on the
//! integer grid by floor division.

use vstd::prelude::*;
use crate::geom::{coord_bound, world_bound, Point, Pose, lemma_mul_bound, lemma_rot_component_bound};

verus! {

/// Euclidean (floor, for a positive divisor) division of a bounded `i128`.
fn floor_div(n: i128, d: i128) -> (q: i128)
    requires
        0 < d <= 0x8000_0000_0000_0000i128,
        -0x8000_0000_0000_0000_0000_0000i128 <= n <= 0x8000_0000_0000_0000_0000_0000i128,
    ensures
        q == n as int / d as int,
{
    proof {
        let k: int = 0x8000_0000_0000_0000_0000_0000;
        assert(-(k * d) <= n <= k * d) by (nonlinear_arith)
            requires
                1 <= d,
                -k <= n <= k,
                0 < k,
        ;
        lemma_div_bound(n as int, d as int, k);
    }
    match n.checked_div_euclid(d) {
        Some(q) => q,
        None => 0,
    }
}

/// Where a pose sends the x coordinate of a local point: rotate, translate,
/// then floor to the grid (the denominator is positive, so the Euclidean
/// quotient is the floor).
pub open spec fn world_x(pose: Pose, p: Point) -> int {
    (pose.rot.c * p.x - pose.rot.s * p.y + pose.tx * pose.rot.d) / (pose.rot.d as int)
}

/// Where a pose sends the y coordinate of a local point.
pub open spec fn world_y(pose: Pose, p: Point) -> int {
    (pose.rot.s * p.x + pose.rot.c * p.y + pose.ty * pose.rot.d) / (pose.rot.d as int)
}

/// Where a pose sends a local point.
pub open spec fn world_point(pose: Pose, p: Point) -> Point {
    Point { x: world_x(pose, p) as i64, y: world_y(pose, p) as i64 }
}

/// The image of a bounded quotient is bounded: if |n| <= k * d then
/// -(k + 1) <= n / d <= k.
proof fn lemma_div_bound(n: int, d: int, k: int)
    requires
        0 < d,
        0 <= k,
        -(k * d) <= n <= k * d,
    ensures
        -(k + 1) <= n / d <= k,
{
    vstd::arithmetic::div_mod::lemma_fundamental_div_mod(n, d);
    let q = n / d;
    let r = n % d;
    assert(0 <= r < d);
    assert(q <= k) by (nonlinear_arith)
        requires
            n == d * q + r,
            0 <= r < d,
            n <= k * d,
            0 < d,
            0 <= k,
    ;
    assert(q >= -(k + 1)) by (nonlinear_arith)
        requires
            n == d * q + r,
            0 <= r < d,
            -(k * d) <= n,
            0 < d,
            0 <= k,
    ;
}

/// Every coordinate a well-formed pose produces from a bounded local point
/// stays within the world bound.
pub proof fn lemma_world_point_bounded(pose: Pose, p: Point)
    requires
        pose.wf(),
        p.in_bounds(coord_bound()),
    ensures
        -world_bound() <= world_x(pose, p) <= world_bound(),
        -world_bound() <= world_y(pose, p) <= world_bound(),
        world_point(pose, p).in_bounds(world_bound()),
{
    let c = pose.rot.c as int;
    let s = pose.rot.s as int;
    let d = pose.rot.d as int;
    lemma_rot_component_bound(c, s, d);
    lemma_mul_bound(c, p.x as int, d, coord_bound());
    lemma_mul_bound(s, p.y as int, d, coord_bound());
    lemma_mul_bound(s, p.x as int, d, coord_bound());
    lemma_mul_bound(c, p.y as int, d, coord_bound());
    lemma_mul_bound(pose.tx as int, d, coord_bound(), d);
    lemma_mul_bound(pose.ty as int, d, coord_bound(), d);
    let k = 3 * coord_bound();
    assert(-(k * d) <= c * p.x - s * p.y + pose.tx * pose.rot.d <= k * d) by (nonlinear_arith)
        requires
            -(d * coord_bound()) <= c * p.x <= d * coord_bound(),
            -(d * coord_bound()) <= s * p.y <= d * coord_bound(),
            -(coord_bound() * d) <= pose.tx * pose.rot.d <= coord_bound() * d,
            k == 3 * coord_bound(),
            0 < d,
    ;
    assert(-(k * d) <= s * p.x + c * p.y + pose.ty * pose.rot.d <= k * d) by (nonlinear_arith)
        requires
            -(d * coord_bound()) <= s * p.x <= d * coord_bound(),
            -(d * coord_bound()) <= c * p.y <= d * coord_bound(),
            -(coord_bound() * d) <= pose.ty * pose.rot.d <= coord_bound() * d,
            k == 3 * coord_bound(),
            0 < d,
    ;
    lemma_div_bound(c * p.x - s * p.y + pose.tx * pose.rot.d, d, k);
    lemma_div_bound(s * p.x + c * p.y + pose.ty * pose.rot.d, d, k);
}

/// Applies a pose to every local-space vertex of a polygon, producing the
/// world-space vertices in the same order. Rotation acts before translation;
/// scale plays no part. Results land on the grid by flooring.
pub fn to_world(pose: &Pose, local: &Vec<Point>) -> (r: Vec<Point>)
    requires
        pose.wf(),
        forall|i: int| 0 <= i < local@.len() ==> local@[i].in_bounds(coord_bound()),
    ensures
        r@.len() == local@.len(),
        forall|i: int| 0 <= i < local@.len() ==> r@[i] == world_point(*pose, local@[i]),
        forall|i: int| 0 <= i < local@.len() ==> r@[i].in_bounds(world_bound()),
{
    let n = local.len();
    let mut out: Vec<Point> = Vec::new();
    let mut i: usize = 0;
    while i < n
        invariant
            0 <= i <= n,
            n == local@.len(),
            pose.wf(),
            forall|k: int| 0 <= k < local@.len() ==> local@[k].in_bounds(coord_bound()),
            out@.len() == i,
            forall|k: int| 0 <= k < i ==> out@[k] == world_point(*pose, local@[k]),
            forall|k: int| 0 <= k < i ==> out@[k].in_bounds(world_bound()),
        decreases n - i,
    {
        let p = local[i];
        let c: i128 = pose.rot.c as i128;
        let s: i128 = pose.rot.s as i128;
        let d: i128 = pose.rot.d as i128;
        proof {
            lemma_rot_component_bound(c as int, s as int, d as int);
            lemma_mul_bound(c as int, p.x as int, d as int, coord_bound());
            lemma_mul_bound(s as int, p.y as int, d as int, coord_bound());
            lemma_mul_bound(s as int, p.x as int, d as int, coord_bound());
            lemma_mul_bound(c as int, p.y as int, d as int, coord_bound());
            lemma_mul_bound(pose.tx as int, d as int, coord_bound(), d as int);
            lemma_mul_bound(pose.ty as int, d as int, coord_bound(), d as int);
        }
        let nx: i128 = c * (p.x as i128) - s * (p.y as i128) + (pose.tx as i128) * d;
        let ny: i128 = s * (p.x as i128) + c * (p.y as i128) + (pose.ty as i128) * d;
        proof {
            lemma_world_point_bounded(*pose, p);
        }
        let qx = floor_div(nx, d);
        let qy = floor_div(ny, d);
        let w = Point { x: qx as i64, y: qy as i64 };
        proof {
            assert(w == world_point(*pose, p));
        }
        out.push(w);
        i = i + 1;
    }
    out
}

} // verus!
