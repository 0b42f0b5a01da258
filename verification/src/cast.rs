//! Ray/convex-polygon casting.
//!
//! A ray is tested against every edge of a polygon; a valid crossing is a
//! non-parallel intersection whose parametric time lies in `[0, max]` and
//! whose foot lies within the edge segment. The cast returns the smallest
//! crossing time as an exact rational; ties keep the first edge seen.

use vstd::prelude::*;
use crate::geom::{
    abs_i, coord_bound, cross2, dir_bound, max_toi_bound, world_bound, toi_den_bound,
    toi_num_bound, GeomError, Point, Ray, Toi, lemma_mul_bound,
};

verus! {

/// Index of the vertex that follows `i` in a polygon of `len` vertices.
pub open spec fn nxt(len: int, i: int) -> int {
    if i + 1 == len {
        0
    } else {
        i + 1
    }
}

/// Denominator of the ray/edge intersection: cross(dir, b - a).
/// Zero exactly when the ray is parallel to the edge.
pub open spec fn e_d(r: Ray, a: Point, b: Point) -> int {
    cross2(r.dir.x as int, r.dir.y as int, b.x - a.x, b.y - a.y)
}

/// Numerator of the ray time at the intersection: cross(a - origin, b - a).
pub open spec fn e_tn(r: Ray, a: Point, b: Point) -> int {
    cross2(a.x - r.origin.x, a.y - r.origin.y, b.x - a.x, b.y - a.y)
}

/// Numerator of the edge parameter at the intersection: cross(a - origin, dir).
pub open spec fn e_un(r: Ray, a: Point, b: Point) -> int {
    cross2(a.x - r.origin.x, a.y - r.origin.y, r.dir.x as int, r.dir.y as int)
}

/// Ray-time numerator, normalized so the denominator is positive.
pub open spec fn n_tn(r: Ray, a: Point, b: Point) -> int {
    if e_d(r, a, b) < 0 {
        -e_tn(r, a, b)
    } else {
        e_tn(r, a, b)
    }
}

/// Edge-parameter numerator, normalized so the denominator is positive.
pub open spec fn n_un(r: Ray, a: Point, b: Point) -> int {
    if e_d(r, a, b) < 0 {
        -e_un(r, a, b)
    } else {
        e_un(r, a, b)
    }
}

/// Normalized (positive) denominator of the ray/edge intersection.
pub open spec fn n_d(r: Ray, a: Point, b: Point) -> int {
    abs_i(e_d(r, a, b))
}

/// The ray crosses the edge `(a, b)`: not parallel, the intersection time
/// `n_tn / n_d` lies in `[0, max]`, and the edge parameter `n_un / n_d`
/// lies in `[0, 1]`.
pub open spec fn edge_crossing(r: Ray, a: Point, b: Point, max: int) -> bool {
    &&& e_d(r, a, b) != 0
    &&& 0 <= n_tn(r, a, b) <= max * n_d(r, a, b)
    &&& 0 <= n_un(r, a, b) <= n_d(r, a, b)
}

/// The exact time of impact of the ray on the edge `(a, b)`.
pub open spec fn edge_toi(r: Ray, a: Point, b: Point) -> Toi {
    Toi { n: n_tn(r, a, b) as i128, d: n_d(r, a, b) as i128 }
}

/// The ray crosses edge `i` of the polygon `s`.
pub open spec fn crossing_at(r: Ray, s: Seq<Point>, i: int, max: int) -> bool {
    edge_crossing(r, s[i], s[nxt(s.len() as int, i)], max)
}

/// The time of impact of the ray on edge `i` of the polygon `s`.
pub open spec fn toi_at(r: Ray, s: Seq<Point>, i: int) -> Toi {
    edge_toi(r, s[i], s[nxt(s.len() as int, i)])
}

/// `cand` strictly improves on the best time seen so far.
pub open spec fn improves(cand: Toi, best: Option<Toi>) -> bool {
    match best {
        Option::None => true,
        Option::Some(b) => cand.rat_le(b) && !cand.rat_eq(b),
    }
}

/// Smallest crossing time among the first `k` edges of `s`; ties keep the
/// earliest edge.
pub open spec fn spec_cast_upto(r: Ray, s: Seq<Point>, max: int, k: int) -> Option<Toi>
    decreases k,
{
    if k <= 0 {
        Option::None
    } else {
        let prev = spec_cast_upto(r, s, max, k - 1);
        if crossing_at(r, s, k - 1, max) && improves(toi_at(r, s, k - 1), prev) {
            Option::Some(toi_at(r, s, k - 1))
        } else {
            prev
        }
    }
}

/// Smallest crossing time of the ray against the whole polygon.
pub open spec fn spec_cast(r: Ray, s: Seq<Point>, max: int) -> Option<Toi> {
    spec_cast_upto(r, s, max, s.len() as int)
}

/// The cross-product identity behind the intersection formulas: the computed
/// time and edge-parameter numerators solve the ray/segment equation
/// `origin + (tn/D) * dir == a + (un/D) * (b - a)` once cross-multiplied
/// by the denominator `D`.
pub proof fn lemma_cross_identity(dx: int, dy: int, ex: int, ey: int, aox: int, aoy: int)
    ensures
        (aox * ey - aoy * ex) * dx - (aox * dy - aoy * dx) * ex == (dx * ey - dy * ex) * aox,
        (aox * ey - aoy * ex) * dy - (aox * dy - aoy * dx) * ey == (dx * ey - dy * ex) * aoy,
{
    assert((aox * ey - aoy * ex) * dx - (aox * dy - aoy * dx) * ex == (dx * ey - dy * ex)
        * aox) by (nonlinear_arith);
    assert((aox * ey - aoy * ex) * dy - (aox * dy - aoy * dx) * ey == (dx * ey - dy * ex)
        * aoy) by (nonlinear_arith);
}

/// A crossing of edge `(a, b)` is a true geometric intersection: with
/// `D = e_d`, `tn = e_tn` and `un = e_un`, the point at ray time `tn / D`
/// equals the point at edge parameter `un / D`. The equation
/// `origin + (tn/D)*dir == a + (un/D)*(b - a)` is stated multiplied through
/// by `D`, so only integers appear.
pub proof fn lemma_crossing_is_intersection(r: Ray, a: Point, b: Point)
    ensures
        e_tn(r, a, b) * r.dir.x - e_un(r, a, b) * (b.x - a.x)
            == e_d(r, a, b) * (a.x - r.origin.x),
        e_tn(r, a, b) * r.dir.y - e_un(r, a, b) * (b.y - a.y)
            == e_d(r, a, b) * (a.y - r.origin.y),
{
    lemma_cross_identity(
        r.dir.x as int,
        r.dir.y as int,
        b.x - a.x,
        b.y - a.y,
        a.x - r.origin.x,
        a.y - r.origin.y,
    );
}

/// For a valid ray and a bounded edge, every intersection quantity stays
/// within the `Toi` bounds, so casts to `i128` lose nothing.
pub proof fn lemma_edge_vals_bounded(r: Ray, a: Point, b: Point)
    requires
        r.wf(),
        a.in_bounds(world_bound()),
        b.in_bounds(world_bound()),
    ensures
        abs_i(e_d(r, a, b)) <= toi_den_bound(),
        abs_i(e_tn(r, a, b)) <= toi_num_bound(),
        abs_i(e_un(r, a, b)) <= toi_den_bound(),
{
    lemma_mul_bound(r.dir.x as int, b.y - a.y, dir_bound(), 2 * world_bound());
    lemma_mul_bound(r.dir.y as int, b.x - a.x, dir_bound(), 2 * world_bound());
    lemma_mul_bound(a.x - r.origin.x, b.y - a.y, world_bound() + coord_bound(), 2 * world_bound());
    lemma_mul_bound(a.y - r.origin.y, b.x - a.x, world_bound() + coord_bound(), 2 * world_bound());
    lemma_mul_bound(a.x - r.origin.x, r.dir.y as int, world_bound() + coord_bound(), dir_bound());
    lemma_mul_bound(a.y - r.origin.y, r.dir.x as int, world_bound() + coord_bound(), dir_bound());
}

/// A crossed, bounded edge yields a well-formed time of impact.
pub proof fn lemma_toi_at_wf(r: Ray, s: Seq<Point>, i: int, max: int)
    requires
        r.wf(),
        0 <= i < s.len(),
        forall|k: int| 0 <= k < s.len() ==> s[k].in_bounds(world_bound()),
        crossing_at(r, s, i, max),
        0 < max <= max_toi_bound(),
    ensures
        toi_at(r, s, i).wf(),
        0 < toi_at(r, s, i).d,
{
    lemma_edge_vals_bounded(r, s[i], s[nxt(s.len() as int, i)]);
}

/// Transitivity of the rational order on times of impact.
pub proof fn lemma_rat_le_trans(a: Toi, b: Toi, c: Toi)
    by (nonlinear_arith)
    requires
        0 < a.d,
        0 < b.d,
        0 < c.d,
        a.rat_le(b),
        b.rat_le(c),
    ensures
        a.rat_le(c),
{
}

/// What the edge fold computes: the fold over the first `k` edges is `None`
/// exactly when no edge among them is crossed, and otherwise returns a time
/// that is attained on some crossed edge and is a lower bound for every
/// crossed edge — the cast returns the smallest crossing time.
pub proof fn lemma_cast_upto_characterizes(r: Ray, s: Seq<Point>, max: int, k: int)
    requires
        0 <= k <= s.len(),
        r.wf(),
        forall|i: int| 0 <= i < s.len() ==> s[i].in_bounds(world_bound()),
        0 < max <= max_toi_bound(),
    ensures
        spec_cast_upto(r, s, max, k) is None <==> (forall|i: int|
            0 <= i < k ==> !crossing_at(r, s, i, max)),
        spec_cast_upto(r, s, max, k) matches Some(t) ==> {
            &&& t.wf()
            &&& exists|i: int| 0 <= i < k && crossing_at(r, s, i, max) && t == toi_at(r, s, i)
            &&& forall|i: int|
                0 <= i < k && crossing_at(r, s, i, max) ==> t.rat_le(toi_at(r, s, i))
        },
    decreases k,
{
    if k > 0 {
        lemma_cast_upto_characterizes(r, s, max, k - 1);
        let prev = spec_cast_upto(r, s, max, k - 1);
        if crossing_at(r, s, k - 1, max) {
            let cand = toi_at(r, s, k - 1);
            lemma_toi_at_wf(r, s, k - 1, max);
            if improves(cand, prev) {
                assert(spec_cast_upto(r, s, max, k) == Option::Some(cand));
                if prev is Some {
                    let b = prev->Some_0;
                    assert forall|i: int|
                        0 <= i < k - 1 && crossing_at(r, s, i, max) implies cand.rat_le(
                        toi_at(r, s, i),
                    ) by {
                        lemma_toi_at_wf(r, s, i, max);
                        lemma_rat_le_trans(cand, b, toi_at(r, s, i));
                    }
                }
            } else {
                let b = prev->Some_0;
                assert(b.rat_le(cand));
            }
        }
    }
}

/// The turn made at vertex `i`: the cross product of the edge into the next
/// vertex with the edge out of it.
pub open spec fn turn_at(s: Seq<Point>, i: int) -> int {
    let a = s[i];
    let b = s[nxt(s.len() as int, i)];
    let c = s[nxt(s.len() as int, nxt(s.len() as int, i))];
    cross2(b.x - a.x, b.y - a.y, c.x - b.x, c.y - b.y)
}

/// A convex polygon in world space: at least three vertices, insertion order
/// is winding order, consecutive edge turns never wind clockwise.
pub open spec fn convex_ccw(s: Seq<Point>) -> bool {
    forall|i: int| 0 <= i < s.len() ==> #[trigger] turn_at(s, i) >= 0
}

/// A well-formed world polygon: enough vertices, bounded coordinates, convex.
pub open spec fn poly_wf(s: Seq<Point>) -> bool {
    &&& s.len() >= 3
    &&& forall|i: int| 0 <= i < s.len() ==> s[i].in_bounds(world_bound())
    &&& convex_ccw(s)
}

/// Aiming a ray straight at a polygon vertex yields a hit no farther than
/// the vertex itself: the edge leaving the vertex (when not parallel to the
/// ray) is crossed exactly at the vertex, at parametric time 1, so the cast
/// returns a time of impact of at most 1 — in these units, at most the
/// distance from the ray origin to the vertex.
pub proof fn lemma_vertex_ray_hits(r: Ray, s: Seq<Point>, i: int, max: int)
    requires
        r.wf(),
        forall|k: int| 0 <= k < s.len() ==> s[k].in_bounds(world_bound()),
        0 <= i < s.len(),
        r.dir.x == s[i].x - r.origin.x,
        r.dir.y == s[i].y - r.origin.y,
        e_d(r, s[i], s[nxt(s.len() as int, i)]) != 0,
        1 <= max <= max_toi_bound(),
    ensures
        crossing_at(r, s, i, max),
        toi_at(r, s, i).rat_eq(Toi { n: 1, d: 1 }),
        spec_cast(r, s, max) is Some,
        spec_cast(r, s, max)->Some_0.rat_le(Toi { n: 1, d: 1 }),
{
    let a = s[i];
    let b = s[nxt(s.len() as int, i)];
    assert(e_tn(r, a, b) == e_d(r, a, b)) by (nonlinear_arith)
        requires
            r.dir.x == a.x - r.origin.x,
            r.dir.y == a.y - r.origin.y,
            e_tn(r, a, b) == (a.x - r.origin.x) * (b.y - a.y) - (a.y - r.origin.y) * (b.x - a.x),
            e_d(r, a, b) == (r.dir.x as int) * (b.y - a.y) - (r.dir.y as int) * (b.x - a.x),
    ;
    assert(e_un(r, a, b) == 0) by (nonlinear_arith)
        requires
            r.dir.x == a.x - r.origin.x,
            r.dir.y == a.y - r.origin.y,
            e_un(r, a, b) == (a.x - r.origin.x) * (r.dir.y as int) - (a.y - r.origin.y) * (
            r.dir.x as int),
    ;
    assert(n_tn(r, a, b) == n_d(r, a, b));
    assert(n_tn(r, a, b) <= max * n_d(r, a, b)) by (nonlinear_arith)
        requires
            n_tn(r, a, b) == n_d(r, a, b),
            n_d(r, a, b) >= 0,
            max >= 1,
    ;
    assert(crossing_at(r, s, i, max));
    lemma_edge_vals_bounded(r, a, b);
    lemma_cast_upto_characterizes(r, s, max, s.len() as int);
    let t = spec_cast(r, s, max)->Some_0;
    assert(t.rat_le(toi_at(r, s, i)));
    assert(toi_at(r, s, i).rat_le(Toi { n: 1, d: 1 }));
    lemma_rat_le_trans(t, toi_at(r, s, i), Toi { n: 1, d: 1 });
}

/// When additionally no edge of the polygon is crossed strictly before the
/// vertex, the reported time is exactly 1: the exact distance from the ray
/// origin to the vertex, in units of that distance.
pub proof fn lemma_vertex_ray_toi_exact(r: Ray, s: Seq<Point>, i: int, max: int)
    requires
        r.wf(),
        forall|k: int| 0 <= k < s.len() ==> s[k].in_bounds(world_bound()),
        0 <= i < s.len(),
        r.dir.x == s[i].x - r.origin.x,
        r.dir.y == s[i].y - r.origin.y,
        e_d(r, s[i], s[nxt(s.len() as int, i)]) != 0,
        1 <= max <= max_toi_bound(),
        forall|j: int|
            0 <= j < s.len() && #[trigger] crossing_at(r, s, j, max) ==> (Toi {
                n: 1,
                d: 1,
            }).rat_le(toi_at(r, s, j)),
    ensures
        spec_cast(r, s, max) is Some,
        spec_cast(r, s, max)->Some_0.rat_eq(Toi { n: 1, d: 1 }),
{
    lemma_vertex_ray_hits(r, s, i, max);
    lemma_cast_upto_characterizes(r, s, max, s.len() as int);
    let t = spec_cast(r, s, max)->Some_0;
    let j = choose|j: int| 0 <= j < s.len() && crossing_at(r, s, j, max) && t == toi_at(r, s, j);
    assert((Toi { n: 1, d: 1 }).rat_le(t));
}

/// A convex occluder polygon in world space.
pub struct Polygon {
    pts: Vec<Point>,
}

impl View for Polygon {
    type V = Seq<Point>;

    closed spec fn view(&self) -> Seq<Point> {
        self.pts@
    }
}

impl Polygon {
    /// The polygon's validity: see `poly_wf`.
    pub open spec fn wf(self) -> bool {
        poly_wf(self@)
    }

    /// Builds a polygon from its world-space vertices, rejecting sequences
    /// with fewer than three points or a non-convex winding.
    pub fn new(pts: Vec<Point>) -> (r: Result<Polygon, GeomError>)
        requires
            forall|i: int| 0 <= i < pts@.len() ==> pts@[i].in_bounds(world_bound()),
        ensures
            r is Ok <==> pts@.len() >= 3 && convex_ccw(pts@),
            r matches Ok(p) ==> p@ == pts@ && p.wf(),
            r is Err ==> r == Err::<Polygon, GeomError>(GeomError::DegenerateOccluder),
    {
        let n = pts.len();
        if n < 3 {
            return Err(GeomError::DegenerateOccluder);
        }
        let mut i: usize = 0;
        while i < n
            invariant
                0 <= i <= n,
                n == pts@.len(),
                3 <= n,
                forall|k: int| 0 <= k < pts@.len() ==> pts@[k].in_bounds(world_bound()),
                forall|k: int| 0 <= k < i ==> #[trigger] turn_at(pts@, k) >= 0,
            decreases n - i,
        {
            let j = if i + 1 == n {
                0
            } else {
                i + 1
            };
            let k = if j + 1 == n {
                0
            } else {
                j + 1
            };
            let a = pts[i];
            let b = pts[j];
            let c = pts[k];
            let e1x: i128 = b.x as i128 - a.x as i128;
            let e1y: i128 = b.y as i128 - a.y as i128;
            let e2x: i128 = c.x as i128 - b.x as i128;
            let e2y: i128 = c.y as i128 - b.y as i128;
            proof {
                lemma_mul_bound(e1x as int, e2y as int, 2 * world_bound(), 2 * world_bound());
                lemma_mul_bound(e1y as int, e2x as int, 2 * world_bound(), 2 * world_bound());
            }
            if e1x * e2y - e1y * e2x < 0 {
                proof {
                    assert(turn_at(pts@, i as int) == e1x * e2y - e1y * e2x);
                }
                return Err(GeomError::DegenerateOccluder);
            }
            proof {
                assert(turn_at(pts@, i as int) == e1x * e2y - e1y * e2x);
            }
            i = i + 1;
        }
        Ok(Polygon { pts })
    }

    /// Number of vertices.
    pub fn len(&self) -> (r: usize)
        ensures
            r == self@.len(),
    {
        self.pts.len()
    }

    /// The vertex at index `i`.
    pub fn vertex(&self, i: usize) -> (r: Point)
        requires
            i < self@.len(),
        ensures
            r == self@[i as int],
    {
        self.pts[i]
    }
}

/// Casts a ray against one convex polygon, scanning no further than the
/// parametric time `max_t`. Returns the smallest crossing time as an exact
/// rational, `None` when the ray crosses no edge within range. Ties between
/// edges keep the first edge seen.
pub fn cast(ray: &Ray, poly: &Polygon, max_t: i64) -> (r: Option<Toi>)
    requires
        ray.wf(),
        poly.wf(),
        0 < max_t <= max_toi_bound(),
    ensures
        r == spec_cast(*ray, poly@, max_t as int),
        r is None <==> (forall|i: int|
            0 <= i < poly@.len() ==> !crossing_at(*ray, poly@, i, max_t as int)),
        r matches Some(t) ==> {
            &&& t.wf()
            &&& exists|i: int|
                0 <= i < poly@.len() && crossing_at(*ray, poly@, i, max_t as int) && t == toi_at(
                    *ray,
                    poly@,
                    i,
                )
            &&& forall|i: int|
                0 <= i < poly@.len() && crossing_at(*ray, poly@, i, max_t as int) ==> t.rat_le(
                    toi_at(*ray, poly@, i),
                )
        },
{
    let n = poly.len();
    let mut best: Option<Toi> = None;
    let mut i: usize = 0;
    while i < n
        invariant
            0 <= i <= n,
            n == poly@.len(),
            ray.wf(),
            poly.wf(),
            0 < max_t <= max_toi_bound(),
            best == spec_cast_upto(*ray, poly@, max_t as int, i as int),
            best matches Some(t) ==> t.wf(),
        decreases n - i,
    {
        let j = if i + 1 == n {
            0
        } else {
            i + 1
        };
        let a = poly.vertex(i);
        let b = poly.vertex(j);
        let ex: i128 = b.x as i128 - a.x as i128;
        let ey: i128 = b.y as i128 - a.y as i128;
        let aox: i128 = a.x as i128 - ray.origin.x as i128;
        let aoy: i128 = a.y as i128 - ray.origin.y as i128;
        let dx: i128 = ray.dir.x as i128;
        let dy: i128 = ray.dir.y as i128;
        proof {
            lemma_mul_bound(dx as int, ey as int, dir_bound(), 2 * world_bound());
            lemma_mul_bound(dy as int, ex as int, dir_bound(), 2 * world_bound());
            lemma_mul_bound(aox as int, ey as int, world_bound() + coord_bound(), 2 * world_bound());
            lemma_mul_bound(aoy as int, ex as int, world_bound() + coord_bound(), 2 * world_bound());
            lemma_mul_bound(aox as int, dy as int, world_bound() + coord_bound(), dir_bound());
            lemma_mul_bound(aoy as int, dx as int, world_bound() + coord_bound(), dir_bound());
        }
        let dd: i128 = dx * ey - dy * ex;
        let tn: i128 = aox * ey - aoy * ex;
        let un: i128 = aox * dy - aoy * dx;
        if dd != 0 {
            let (ntn, nun, nd): (i128, i128, i128) = if dd < 0 {
                (-tn, -un, -dd)
            } else {
                (tn, un, dd)
            };
            proof {
                lemma_mul_bound(max_t as int, nd as int, max_toi_bound(), toi_den_bound());
            }
            if ntn >= 0 && nun >= 0 && nun <= nd && ntn <= (max_t as i128) * nd {
                let cand = Toi { n: ntn, d: nd };
                assert(crossing_at(*ray, poly@, i as int, max_t as int));
                assert(cand == toi_at(*ray, poly@, i as int));
                let replace: bool = match best {
                    Option::None => true,
                    Option::Some(bb) => cand.le(&bb) && !cand.eq_rat(&bb),
                };
                if replace {
                    best = Some(cand);
                }
            }
        }
        i = i + 1;
    }
    proof {
        lemma_cast_upto_characterizes(*ray, poly@, max_t as int, poly@.len() as int);
    }
    best
}

/// Smallest crossing time among the first `k` polygons of a scene; ties keep
/// the earliest polygon.
pub open spec fn spec_cast_scene_upto(r: Ray, ps: Seq<Seq<Point>>, max: int, k: int) -> Option<Toi>
    decreases k,
{
    if k <= 0 {
        Option::None
    } else {
        let prev = spec_cast_scene_upto(r, ps, max, k - 1);
        match spec_cast(r, ps[k - 1], max) {
            Option::None => prev,
            Option::Some(t) => if improves(t, prev) {
                Option::Some(t)
            } else {
                prev
            },
        }
    }
}

/// Smallest crossing time of the ray against every polygon of the scene.
pub open spec fn spec_cast_scene(r: Ray, ps: Seq<Seq<Point>>, max: int) -> Option<Toi> {
    spec_cast_scene_upto(r, ps, max, ps.len() as int)
}

/// The scene fold is `None` exactly when no polygon is hit, and otherwise
/// returns a time attained on some polygon that is a lower bound for the
/// result of every polygon (in particular, of every crossed edge in the
/// scene).
pub proof fn lemma_cast_scene_characterizes(r: Ray, ps: Seq<Seq<Point>>, max: int, k: int)
    requires
        0 <= k <= ps.len(),
        r.wf(),
        forall|p: int| 0 <= p < ps.len() ==> #[trigger] poly_wf(ps[p]),
        0 < max <= max_toi_bound(),
    ensures
        spec_cast_scene_upto(r, ps, max, k) is None <==> (forall|p: int|
            0 <= p < k ==> spec_cast(r, ps[p], max) is None),
        spec_cast_scene_upto(r, ps, max, k) matches Some(t) ==> {
            &&& t.wf()
            &&& exists|p: int|
                0 <= p < k && spec_cast(r, ps[p], max) == Option::Some(t)
            &&& forall|p: int|
                0 <= p < k && spec_cast(r, ps[p], max) is Some ==> t.rat_le(
                    spec_cast(r, ps[p], max)->Some_0,
                )
        },
    decreases k,
{
    if k > 0 {
        lemma_cast_scene_characterizes(r, ps, max, k - 1);
        let prev = spec_cast_scene_upto(r, ps, max, k - 1);
        if spec_cast(r, ps[k - 1], max) is Some {
            let cand = spec_cast(r, ps[k - 1], max)->Some_0;
            assert(poly_wf(ps[k - 1]));
            lemma_cast_upto_characterizes(r, ps[k - 1], max, ps[k - 1].len() as int);
            assert(cand.wf());
            if improves(cand, prev) {
                if prev is Some {
                    let b = prev->Some_0;
                    assert forall|p: int|
                        0 <= p < k && spec_cast(r, ps[p], max) is Some implies cand.rat_le(
                        spec_cast(r, ps[p], max)->Some_0,
                    ) by {
                        if p < k - 1 {
                            assert(poly_wf(ps[p]));
                            lemma_cast_upto_characterizes(r, ps[p], max, ps[p].len() as int);
                            lemma_rat_le_trans(cand, b, spec_cast(r, ps[p], max)->Some_0);
                        }
                    }
                }
            } else {
                let b = prev->Some_0;
                assert(b.rat_le(cand));
            }
        }
    }
}

/// Casts a ray against every occluder of a scene and keeps the nearest
/// crossing time; `None` when the ray escapes every occluder. Ties keep the
/// first occluder seen.
pub fn cast_to_all(ray: &Ray, occluders: &Vec<Polygon>, max_t: i64) -> (r: Option<Toi>)
    requires
        ray.wf(),
        forall|p: int| 0 <= p < occluders@.len() ==> occluders@[p].wf(),
        0 < max_t <= max_toi_bound(),
    ensures
        r == spec_cast_scene(*ray, occluders@.map_values(|q: Polygon| q@), max_t as int),
        r is None <==> (forall|p: int|
            0 <= p < occluders@.len() ==> spec_cast(*ray, occluders@[p]@, max_t as int) is None),
        r matches Some(t) ==> {
            &&& t.wf()
            &&& exists|p: int|
                0 <= p < occluders@.len() && spec_cast(*ray, occluders@[p]@, max_t as int)
                    == Option::Some(t)
            &&& forall|p: int|
                0 <= p < occluders@.len() && spec_cast(*ray, occluders@[p]@, max_t as int)
                    is Some ==> t.rat_le(spec_cast(*ray, occluders@[p]@, max_t as int)->Some_0)
        },
{
    let ghost views = occluders@.map_values(|q: Polygon| q@);
    let n = occluders.len();
    let mut best: Option<Toi> = None;
    let mut i: usize = 0;
    while i < n
        invariant
            0 <= i <= n,
            n == occluders@.len(),
            views == occluders@.map_values(|q: Polygon| q@),
            ray.wf(),
            forall|p: int| 0 <= p < occluders@.len() ==> occluders@[p].wf(),
            0 < max_t <= max_toi_bound(),
            best == spec_cast_scene_upto(*ray, views, max_t as int, i as int),
            best matches Some(t) ==> t.wf(),
        decreases n - i,
    {
        let here = cast(ray, &occluders[i], max_t);
        if let Some(cand) = here {
            let replace: bool = match best {
                Option::None => true,
                Option::Some(bb) => cand.le(&bb) && !cand.eq_rat(&bb),
            };
            if replace {
                best = Some(cand);
            }
        }
        i = i + 1;
    }
    proof {
        assert forall|p: int| 0 <= p < views.len() implies #[trigger] poly_wf(views[p]) by {
            assert(occluders@[p].wf());
            assert(views[p] == occluders@[p]@);
        }
        lemma_cast_scene_characterizes(*ray, views, max_t as int, views.len() as int);
        assert forall|p: int| 0 <= p < occluders@.len() implies #[trigger] occluders@[p]@
            == views[p] by {}
    }
    best
}

/// A ray aimed straight at a vertex of any occluder of the scene hits the
/// scene no later than the vertex itself: the nearest time of impact across
/// all occluders is at most 1 (in units of the distance to that vertex),
/// provided the scan range reaches the vertex and the edge leaving it is not
/// parallel to the ray.
pub proof fn lemma_scene_vertex_ray_hits(r: Ray, ps: Seq<Seq<Point>>, p: int, i: int, max: int)
    requires
        r.wf(),
        forall|q: int| 0 <= q < ps.len() ==> #[trigger] poly_wf(ps[q]),
        0 <= p < ps.len(),
        0 <= i < ps[p].len(),
        r.dir.x == ps[p][i].x - r.origin.x,
        r.dir.y == ps[p][i].y - r.origin.y,
        e_d(r, ps[p][i], ps[p][nxt(ps[p].len() as int, i)]) != 0,
        1 <= max <= max_toi_bound(),
    ensures
        spec_cast_scene(r, ps, max) is Some,
        spec_cast_scene(r, ps, max)->Some_0.rat_le(Toi { n: 1, d: 1 }),
{
    assert(poly_wf(ps[p]));
    lemma_vertex_ray_hits(r, ps[p], i, max);
    lemma_cast_upto_characterizes(r, ps[p], max, ps[p].len() as int);
    lemma_cast_scene_characterizes(r, ps, max, ps.len() as int);
    let t = spec_cast_scene(r, ps, max)->Some_0;
    let tp = spec_cast(r, ps[p], max)->Some_0;
    assert(t.rat_le(tp));
    lemma_rat_le_trans(t, tp, Toi { n: 1, d: 1 });
}

} // verus!
