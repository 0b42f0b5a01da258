//! The sampling strategy and the per-pass orchestration: world-space
//! occluder ingestion, construction of the vertex and epsilon rays plus the
//! two anchor rays, casting every ray against the whole scene, and assembly
//! of the sorted outline.

use vstd::prelude::*;
use crate::cast::{
    cast_to_all, convex_ccw, spec_cast_scene, Polygon,
};
use crate::geom::{
    coord_bound, dir_bound, max_toi_bound, rot_bound, world_bound, Dir, Point, Pose, Ray, Rot,
    Toi, lemma_mul_bound, lemma_rot_component_bound,
};
use crate::outline::{assemble, isort, sorted_by_angle, Sample};
use crate::xform::{to_world, world_point};

verus! {

/// The fixed counterclockwise epsilon rotation used to probe just past a
/// silhouette vertex: an exact rotation by about 0.001 radians
/// (sin = 4000 / 4000001).
pub open spec fn spec_eps_ccw() -> Rot {
    Rot { c: 3999999, s: 4000, d: 4000001 }
}

/// The fixed clockwise epsilon rotation.
pub open spec fn spec_eps_cw() -> Rot {
    Rot { c: 3999999, s: -4000i64, d: 4000001 }
}

/// Builds the counterclockwise epsilon rotation.
pub fn eps_ccw() -> (r: Rot)
    ensures
        r == spec_eps_ccw(),
        r.wf(),
{
    proof {
        assert(3999999int * 3999999 + 4000int * 4000 == 4000001int * 4000001)
            by (nonlinear_arith);
    }
    Rot { c: 3999999, s: 4000, d: 4000001 }
}

/// Builds the clockwise epsilon rotation.
pub fn eps_cw() -> (r: Rot)
    ensures
        r == spec_eps_cw(),
        r.wf(),
{
    proof {
        assert(3999999int * 3999999 + (-4000int) * (-4000) == 4000001int * 4000001)
            by (nonlinear_arith);
    }
    Rot { c: 3999999, s: -4000i64, d: 4000001 }
}

/// A direction rotated by an exact rotation, scaled up by the rotation's
/// denominator (which leaves its angle unchanged).
pub open spec fn rot_dir(r: Rot, v: Dir) -> Dir {
    Dir { x: (r.c * v.x - r.s * v.y) as i64, y: (r.s * v.x + r.c * v.y) as i64 }
}

/// A rotation maps no nonzero vector to zero.
proof fn lemma_rot_nonzero(c: int, s: int, d: int, x: int, y: int)
    requires
        c * c + s * s == d * d,
        0 < d,
        c * x - s * y == 0,
        s * x + c * y == 0,
    ensures
        x == 0 && y == 0,
{
    assert(c * (x * x + y * y) == x * (c * x - s * y) + y * (s * x + c * y)) by (nonlinear_arith);
    assert(s * (x * x + y * y) == x * (s * x + c * y) - y * (c * x - s * y)) by (nonlinear_arith);
    assert(c * (x * x + y * y) == 0);
    assert(s * (x * x + y * y) == 0);
    assert(d * d * (x * x + y * y) == c * (c * (x * x + y * y)) + s * (s * (x * x + y * y)))
        by (nonlinear_arith)
        requires
            c * c + s * s == d * d,
    ;
    assert(x * x + y * y == 0) by (nonlinear_arith)
        requires
            d * d * (x * x + y * y) == 0,
            0 < d,
    ;
    assert(x == 0 && y == 0) by (nonlinear_arith)
        requires
            x * x + y * y == 0,
    ;
}

/// Rotates a bounded direction by an exact rotation, scaled up by the
/// rotation's denominator: the result keeps the rotated angle and is nonzero
/// whenever the input is.
pub fn rotate_dir(r: &Rot, v: Dir) -> (w: Dir)
    requires
        r.wf(),
        v.in_bounds(world_bound() + coord_bound()),
    ensures
        w == rot_dir(*r, v),
        w.in_bounds(dir_bound()),
        !v.is_zero() ==> !w.is_zero(),
{
    proof {
        lemma_rot_component_bound(r.c as int, r.s as int, r.d as int);
        lemma_mul_bound(r.c as int, v.x as int, rot_bound(), world_bound() + coord_bound());
        lemma_mul_bound(r.s as int, v.y as int, rot_bound(), world_bound() + coord_bound());
        lemma_mul_bound(r.s as int, v.x as int, rot_bound(), world_bound() + coord_bound());
        lemma_mul_bound(r.c as int, v.y as int, rot_bound(), world_bound() + coord_bound());
    }
    let wx: i128 = (r.c as i128) * (v.x as i128) - (r.s as i128) * (v.y as i128);
    let wy: i128 = (r.s as i128) * (v.x as i128) + (r.c as i128) * (v.y as i128);
    let w = Dir { x: wx as i64, y: wy as i64 };
    proof {
        if !v.is_zero() && w.is_zero() {
            lemma_rot_nonzero(r.c as int, r.s as int, r.d as int, v.x as int, v.y as int);
        }
    }
    w
}

/// The direction from the observer to a world vertex.
pub open spec fn vertex_dir(obs: Point, v: Point) -> Dir {
    Dir { x: (v.x - obs.x) as i64, y: (v.y - obs.y) as i64 }
}

/// The three rays one vertex contributes: the exact direction to the vertex
/// and its two epsilon siblings, clockwise first. A vertex that coincides
/// with the observer contributes nothing (its direction is degenerate).
pub open spec fn vertex_rays(obs: Point, v: Point) -> Seq<Ray> {
    if vertex_dir(obs, v).is_zero() {
        Seq::empty()
    } else {
        seq![
            Ray { origin: obs, dir: rot_dir(spec_eps_cw(), vertex_dir(obs, v)) },
            Ray { origin: obs, dir: vertex_dir(obs, v) },
            Ray { origin: obs, dir: rot_dir(spec_eps_ccw(), vertex_dir(obs, v)) },
        ]
    }
}

/// The rays contributed by every vertex of one polygon, in vertex order.
pub open spec fn poly_rays(obs: Point, s: Seq<Point>) -> Seq<Ray>
    decreases s.len(),
{
    if s.len() == 0 {
        Seq::empty()
    } else {
        poly_rays(obs, s.drop_last()) + vertex_rays(obs, s.last())
    }
}

/// The two fixed anchor rays pointing right and left of the observer, which
/// bound the scene when no occluder blocks those directions.
pub open spec fn anchor_rays(obs: Point) -> Seq<Ray> {
    seq![
        Ray { origin: obs, dir: Dir { x: 1, y: 0 } },
        Ray { origin: obs, dir: Dir { x: -1i64, y: 0 } },
    ]
}

/// Every ray of one visibility pass: the two anchors, then three rays per
/// occluder vertex in occluder order.
pub open spec fn scene_rays(obs: Point, ps: Seq<Seq<Point>>) -> Seq<Ray>
    decreases ps.len(),
{
    if ps.len() == 0 {
        anchor_rays(obs)
    } else {
        scene_rays(obs, ps.drop_last()) + poly_rays(obs, ps.last())
    }
}

/// Builds every sample ray of a pass: two anchors, then, for each occluder
/// vertex, the exact vertex ray bracketed by its two epsilon siblings.
pub fn sample_rays(observer: Point, occluders: &Vec<Polygon>) -> (r: Vec<Ray>)
    requires
        observer.in_bounds(coord_bound()),
        forall|p: int| 0 <= p < occluders@.len() ==> (#[trigger] occluders@[p]).wf(),
    ensures
        r@ == scene_rays(observer, occluders@.map_values(|q: Polygon| q@)),
        forall|i: int| 0 <= i < r@.len() ==> (#[trigger] r@[i]).wf() && r@[i].origin == observer,
{
    let ghost views = occluders@.map_values(|q: Polygon| q@);
    let mut rays: Vec<Ray> = Vec::new();
    rays.push(Ray { origin: observer, dir: Dir { x: 1, y: 0 } });
    rays.push(Ray { origin: observer, dir: Dir { x: -1, y: 0 } });
    proof {
        assert(rays@ =~= anchor_rays(observer));
        assert(views.take(0) =~= Seq::<Seq<Point>>::empty());
    }
    let cw = eps_cw();
    let ccw = eps_ccw();
    let n = occluders.len();
    let mut p: usize = 0;
    while p < n
        invariant
            0 <= p <= n,
            n == occluders@.len(),
            views == occluders@.map_values(|q: Polygon| q@),
            observer.in_bounds(coord_bound()),
            forall|k: int| 0 <= k < occluders@.len() ==> (#[trigger] occluders@[k]).wf(),
            cw == spec_eps_cw() && cw.wf(),
            ccw == spec_eps_ccw() && ccw.wf(),
            rays@ == scene_rays(observer, views.take(p as int)),
            forall|i: int|
                0 <= i < rays@.len() ==> (#[trigger] rays@[i]).wf() && rays@[i].origin == observer,
        decreases n - p,
    {
        let poly = &occluders[p];
        let m = poly.len();
        let mut v: usize = 0;
        proof {
            assert(poly@.take(0) =~= Seq::<Point>::empty());
        }
        while v < m
            invariant
                0 <= v <= m,
                m == poly@.len(),
                poly == &occluders@[p as int],
                p < n,
                n == occluders@.len(),
                views == occluders@.map_values(|q: Polygon| q@),
                observer.in_bounds(coord_bound()),
                forall|k: int| 0 <= k < occluders@.len() ==> (#[trigger] occluders@[k]).wf(),
                cw == spec_eps_cw() && cw.wf(),
                ccw == spec_eps_ccw() && ccw.wf(),
                rays@ == scene_rays(observer, views.take(p as int)) + poly_rays(
                    observer,
                    poly@.take(v as int),
                ),
                forall|i: int|
                    0 <= i < rays@.len() ==> (#[trigger] rays@[i]).wf() && rays@[i].origin
                        == observer,
            decreases m - v,
        {
            let w = poly.vertex(v);
            let dx: i64 = w.x - observer.x;
            let dy: i64 = w.y - observer.y;
            let d = Dir { x: dx, y: dy };
            proof {
                assert(d == vertex_dir(observer, poly@[v as int]));
                assert(poly@.take(v as int + 1).drop_last() =~= poly@.take(v as int));
            }
            if !(dx == 0 && dy == 0) {
                let minus = rotate_dir(&cw, d);
                let plus = rotate_dir(&ccw, d);
                rays.push(Ray { origin: observer, dir: minus });
                rays.push(Ray { origin: observer, dir: d });
                rays.push(Ray { origin: observer, dir: plus });
                proof {
                    assert(rays@ =~= scene_rays(observer, views.take(p as int)) + poly_rays(
                        observer,
                        poly@.take(v as int + 1),
                    ));
                }
            } else {
                proof {
                    assert(rays@ =~= scene_rays(observer, views.take(p as int)) + poly_rays(
                        observer,
                        poly@.take(v as int + 1),
                    ));
                }
            }
            v = v + 1;
        }
        proof {
            assert(poly@.take(m as int) =~= poly@);
            assert(views.take(p as int + 1).drop_last() =~= views.take(p as int));
            assert(views.take(p as int + 1).last() == poly@);
            assert(rays@ =~= scene_rays(observer, views.take(p as int + 1)));
        }
        p = p + 1;
    }
    proof {
        assert(views.take(n as int) =~= views);
    }
    rays
}

/// The time of impact an escaping ray reports: exactly the maximum scan
/// parameter, so the escape point is exactly `origin + dir * max`.
pub open spec fn escape_toi(max: int) -> Toi {
    Toi { n: max as i128, d: 1 }
}

/// The sample one ray contributes: the nearest scene crossing when there is
/// one, the escape time otherwise.
pub open spec fn spec_sample_of(r: Ray, ps: Seq<Seq<Point>>, max: int) -> Sample {
    let sc = spec_cast_scene(r, ps, max);
    Sample {
        dir: r.dir,
        toi: if sc is Some {
            sc->Some_0
        } else {
            escape_toi(max)
        },
    }
}

/// Every sample of a pass, one per sample ray, in ray order.
pub open spec fn spec_samples(obs: Point, ps: Seq<Seq<Point>>, max: int) -> Seq<Sample> {
    scene_rays(obs, ps).map_values(|r: Ray| spec_sample_of(r, ps, max))
}

/// Escape is exact: a ray that crosses nothing within range samples the
/// time `max` itself, so the world point it stands for is exactly
/// `origin + dir * max` (numerators over the denominator 1).
pub proof fn lemma_escape_sample_exact(r: Ray, ps: Seq<Seq<Point>>, max: int, obs: Point)
    requires
        spec_cast_scene(r, ps, max) is None,
        r.origin == obs,
        0 < max <= max_toi_bound(),
    ensures
        spec_sample_of(r, ps, max).toi == escape_toi(max),
        crate::outline::out_xn(spec_sample_of(r, ps, max), obs) == obs.x + max * r.dir.x,
        crate::outline::out_yn(spec_sample_of(r, ps, max), obs) == obs.y + max * r.dir.y,
{
    let s = spec_sample_of(r, ps, max);
    assert(s.toi.d == 1 && s.toi.n == max);
    assert(obs.x * 1int == obs.x) by (nonlinear_arith);
    assert(obs.y * 1int == obs.y) by (nonlinear_arith);
}

/// Casts each given ray against the whole scene: the resulting sample keeps
/// the ray's direction and the nearest crossing time, or the escape time
/// `max_t` when the ray crosses nothing in range.
pub fn cast_samples(rays: &Vec<Ray>, occluders: &Vec<Polygon>, max_t: i64) -> (r: Vec<Sample>)
    requires
        forall|i: int| 0 <= i < rays@.len() ==> (#[trigger] rays@[i]).wf(),
        forall|p: int| 0 <= p < occluders@.len() ==> (#[trigger] occluders@[p]).wf(),
        0 < max_t <= max_toi_bound(),
    ensures
        r@ == rays@.map_values(
            |q: Ray| spec_sample_of(q, occluders@.map_values(|o: Polygon| o@), max_t as int),
        ),
        forall|i: int| 0 <= i < r@.len() ==> (#[trigger] r@[i]).wf(),
{
    let ghost views = occluders@.map_values(|o: Polygon| o@);
    let n = rays.len();
    let mut out: Vec<Sample> = Vec::new();
    let mut i: usize = 0;
    while i < n
        invariant
            0 <= i <= n,
            n == rays@.len(),
            views == occluders@.map_values(|o: Polygon| o@),
            forall|k: int| 0 <= k < rays@.len() ==> (#[trigger] rays@[k]).wf(),
            forall|p: int| 0 <= p < occluders@.len() ==> (#[trigger] occluders@[p]).wf(),
            0 < max_t <= max_toi_bound(),
            out@.len() == i,
            forall|k: int|
                0 <= k < i ==> #[trigger] out@[k] == spec_sample_of(
                    rays@[k],
                    views,
                    max_t as int,
                ),
            forall|k: int| 0 <= k < i ==> (#[trigger] out@[k]).wf(),
        decreases n - i,
    {
        let ray = rays[i];
        let hit = cast_to_all(&ray, occluders, max_t);
        let toi: Toi = match hit {
            Some(t) => t,
            None => Toi { n: max_t as i128, d: 1 },
        };
        out.push(Sample { dir: ray.dir, toi });
        i = i + 1;
    }
    proof {
        assert(out@ =~= rays@.map_values(|q: Ray| spec_sample_of(q, views, max_t as int)));
    }
    out
}

/// One occluder as handed in by the data source: a pose and the local-space
/// vertices of its convex polygon.
#[derive(Debug)]
pub struct RawOccluder {
    pub pose: Pose,
    pub local: Vec<Point>,
}

impl RawOccluder {
    /// Bounded input: valid pose, local vertices within the input bound.
    pub open spec fn wf(self) -> bool {
        &&& self.pose.wf()
        &&& forall|i: int|
            0 <= i < self.local@.len() ==> (#[trigger] self.local@[i]).in_bounds(coord_bound())
    }
}

/// The world-space vertex sequence of one raw occluder.
pub open spec fn occ_world(o: RawOccluder) -> Seq<Point> {
    o.local@.map_values(|p: Point| world_point(o.pose, p))
}

/// A raw occluder that survives ingestion: at least three vertices, convex.
pub open spec fn occ_ok(o: RawOccluder) -> bool {
    occ_world(o).len() >= 3 && convex_ccw(occ_world(o))
}

/// The world polygons of the occluders that survive ingestion, in order.
pub open spec fn spec_ingest(s: Seq<RawOccluder>) -> Seq<Seq<Point>>
    decreases s.len(),
{
    if s.len() == 0 {
        Seq::empty()
    } else {
        spec_ingest(s.drop_last()) + if occ_ok(s.last()) {
            seq![occ_world(s.last())]
        } else {
            Seq::empty()
        }
    }
}

/// Transforms each raw occluder to world space and keeps those that form a
/// valid convex polygon; degenerate occluders (fewer than three vertices or
/// a non-convex winding) are skipped, never aborting the pass.
pub fn ingest(occluders: &Vec<RawOccluder>) -> (r: Vec<Polygon>)
    requires
        forall|i: int| 0 <= i < occluders@.len() ==> (#[trigger] occluders@[i]).wf(),
    ensures
        r@.map_values(|p: Polygon| p@) == spec_ingest(occluders@),
        forall|i: int| 0 <= i < r@.len() ==> (#[trigger] r@[i]).wf(),
{
    let n = occluders.len();
    let mut out: Vec<Polygon> = Vec::new();
    let mut i: usize = 0;
    proof {
        assert(occluders@.take(0) =~= Seq::<RawOccluder>::empty());
        assert(out@.map_values(|p: Polygon| p@) =~= spec_ingest(occluders@.take(0)));
    }
    while i < n
        invariant
            0 <= i <= n,
            n == occluders@.len(),
            forall|k: int| 0 <= k < occluders@.len() ==> (#[trigger] occluders@[k]).wf(),
            out@.map_values(|p: Polygon| p@) == spec_ingest(occluders@.take(i as int)),
            forall|k: int| 0 <= k < out@.len() ==> (#[trigger] out@[k]).wf(),
        decreases n - i,
    {
        let occ = &occluders[i];
        let world = to_world(&occ.pose, &occ.local);
        proof {
            assert(world@ =~= occ_world(occluders@[i as int]));
            assert(occluders@.take(i as int + 1).drop_last() =~= occluders@.take(i as int));
        }
        match Polygon::new(world) {
            Ok(poly) => {
                out.push(poly);
                proof {
                    assert(out@.map_values(|p: Polygon| p@) =~= spec_ingest(
                        occluders@.take(i as int + 1),
                    ));
                }
            },
            Err(_) => {
                proof {
                    assert(out@.map_values(|p: Polygon| p@) =~= spec_ingest(
                        occluders@.take(i as int + 1),
                    ));
                }
            },
        }
        i = i + 1;
    }
    proof {
        assert(occluders@.take(n as int) =~= occluders@);
    }
    out
}

/// One full visibility pass: ingest the occluders, build the sample rays,
/// cast each against the whole scene, and sort the resulting samples by
/// polar angle around the observer. The result is exactly the stable sort
/// of the samples of the surviving occluders' rays; each sample's world
/// point is `observer + toi * dir`.
pub fn visibility_outline(observer: Point, occluders: &Vec<RawOccluder>, max_t: i64) -> (r: Vec<
    Sample,
>)
    requires
        observer.in_bounds(coord_bound()),
        forall|i: int| 0 <= i < occluders@.len() ==> (#[trigger] occluders@[i]).wf(),
        0 < max_t <= max_toi_bound(),
    ensures
        r@ == isort(spec_samples(observer, spec_ingest(occluders@), max_t as int)),
        sorted_by_angle(r@),
        r@.to_multiset() == spec_samples(observer, spec_ingest(occluders@), max_t as int)
            .to_multiset(),
        r@.len() == scene_rays(observer, spec_ingest(occluders@)).len(),
        forall|i: int| 0 <= i < r@.len() ==> (#[trigger] r@[i]).wf(),
{
    let polys = ingest(occluders);
    let rays = sample_rays(observer, &polys);
    let samples = cast_samples(&rays, &polys, max_t);
    proof {
        assert(samples@ =~= spec_samples(observer, spec_ingest(occluders@), max_t as int));
    }
    let sorted = assemble(&samples);
    proof {
        crate::outline::lemma_isort_permutes(samples@);
        broadcast use vstd::seq_lib::group_to_multiset_ensures;

        assert forall|i: int| 0 <= i < sorted@.len() implies (#[trigger] sorted@[i]).wf() by {
            assert(sorted@.contains(sorted@[i]));
            assert(sorted@.to_multiset().count(sorted@[i]) > 0);
            assert(samples@.to_multiset().count(sorted@[i]) > 0);
            assert(samples@.contains(sorted@[i]));
        }
    }
    sorted
}

} // verus!

