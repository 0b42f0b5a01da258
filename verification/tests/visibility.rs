//! End-to-end and component tests for the shadow-outline library: ray
//! casting against convex polygons, sampling, escape fallback, and outline
//! assembly.

use shadowcast::cast::{cast, cast_to_all, Polygon};
use shadowcast::geom::{Dir, GeomError, Point, Pose, Ray, Rot, Toi};
use shadowcast::outline::{assemble, outline_edges, outline_points, sample_point, Sample};
use shadowcast::angle::angle_le_exec;
use shadowcast::scene::{eps_ccw, eps_cw, ingest, rotate_dir, visibility_outline, RawOccluder};
use shadowcast::xform::to_world;

fn pt(x: i64, y: i64) -> Point {
    Point { x, y }
}

/// Axis-aligned square, counterclockwise winding.
fn square(cx: i64, cy: i64, h: i64) -> Vec<Point> {
    vec![
        pt(cx - h, cy - h),
        pt(cx + h, cy - h),
        pt(cx + h, cy + h),
        pt(cx - h, cy + h),
    ]
}

fn identity_pose() -> Pose {
    Pose { tx: 0, ty: 0, rot: Rot::identity() }
}

fn ray(ox: i64, oy: i64, dx: i64, dy: i64) -> Ray {
    Ray::new(pt(ox, oy), Dir { x: dx, y: dy }).unwrap()
}

fn toi_f64(t: &Toi) -> f64 {
    t.n as f64 / t.d as f64
}

#[test]
fn ray_new_rejects_zero_direction() {
    let r = Ray::new(pt(0, 0), Dir { x: 0, y: 0 });
    assert_eq!(r, Err(GeomError::InvalidRay));
    let ok = Ray::new(pt(0, 0), Dir { x: 3, y: -4 });
    assert!(ok.is_ok());
}

#[test]
fn polygon_new_rejects_degenerate() {
    let two = vec![pt(0, 0), pt(1, 0)];
    assert!(matches!(Polygon::new(two), Err(GeomError::DegenerateOccluder)));
    // a clockwise-wound (reflex) quadrilateral is rejected too
    let dart = vec![pt(0, 0), pt(0, 10), pt(10, 10), pt(10, 0)];
    assert!(matches!(Polygon::new(dart), Err(GeomError::DegenerateOccluder)));
    let good = Polygon::new(square(0, 0, 5)).unwrap();
    assert_eq!(good.len(), 4);
    assert_eq!(good.vertex(2), pt(5, 5));
}

#[test]
fn rot_new_checks_the_circle() {
    let r = Rot::new(3, 4, 5);
    assert_eq!(r, Some(Rot { c: 3, s: 4, d: 5 }));
    assert_eq!(Rot::new(1, 1, 1), None);
    assert_eq!(Rot::new(1, 0, 0), None);
    // the two epsilon rotations really lie on the circle
    let e = eps_ccw();
    assert!(Rot::new(e.c, e.s, e.d).is_some());
    let e = eps_cw();
    assert!(Rot::new(e.c, e.s, e.d).is_some());
}

#[test]
fn toi_rational_comparisons() {
    let half = Toi { n: 1, d: 2 };
    let two_quarters = Toi { n: 2, d: 4 };
    let third = Toi { n: 1, d: 3 };
    assert!(half.eq_rat(&two_quarters));
    assert!(third.le(&half));
    assert!(!half.le(&third));
}

#[test]
fn cast_hits_nearest_edge() {
    let poly = Polygon::new(square(20, 0, 5)).unwrap();
    let t = cast(&ray(0, 0, 1, 0), &poly, 1000).unwrap();
    // the near (left) edge of the square is at x = 15
    assert!(t.eq_rat(&Toi { n: 15, d: 1 }));
}

#[test]
fn cast_misses_behind_and_beyond() {
    let poly = Polygon::new(square(20, 0, 5)).unwrap();
    // aimed away from the square
    assert_eq!(cast(&ray(0, 0, -1, 0), &poly, 1000), None);
    // within aim but out of scan range: the hit at t = 15 exceeds max 10
    assert_eq!(cast(&ray(0, 0, 1, 0), &poly, 10), None);
    // parallel to the top edge, above it
    assert_eq!(cast(&ray(0, 10, 1, 0), &poly, 1000), None);
}

#[test]
fn vertex_ray_time_is_one_for_visible_corner() {
    let poly = Polygon::new(square(20, 0, 5)).unwrap();
    // near corners (15, +-5): the ray reaches the corner itself at time 1
    let t = cast(&ray(0, 0, 15, 5), &poly, 1000).unwrap();
    assert!(t.eq_rat(&Toi { n: 1, d: 1 }));
    let t = cast(&ray(0, 0, 15, -5), &poly, 1000).unwrap();
    assert!(t.eq_rat(&Toi { n: 1, d: 1 }));
    // far corner (25, 5): the ray enters through the near edge first,
    // at x = 15, i.e. at time 15/25 = 3/5
    let t = cast(&ray(0, 0, 25, 5), &poly, 1000).unwrap();
    assert!(t.eq_rat(&Toi { n: 3, d: 5 }));
}

#[test]
fn overlapping_occluders_report_the_nearer_hit() {
    let near = Polygon::new(square(20, 0, 5)).unwrap();
    let far = Polygon::new(square(40, 0, 5)).unwrap();
    let polys = vec![far, near];
    let t = cast_to_all(&ray(0, 0, 1, 0), &polys, 1000).unwrap();
    assert!(t.eq_rat(&Toi { n: 15, d: 1 }));
    let near = Polygon::new(square(20, 0, 5)).unwrap();
    let far = Polygon::new(square(40, 0, 5)).unwrap();
    let polys = vec![near, far];
    let t = cast_to_all(&ray(0, 0, 1, 0), &polys, 1000).unwrap();
    assert!(t.eq_rat(&Toi { n: 15, d: 1 }));
}

#[test]
fn escape_point_is_exact() {
    let polys: Vec<Polygon> = Vec::new();
    assert_eq!(cast_to_all(&ray(0, 0, 7, -3), &polys, 1000), None);
    // an escaping sample carries exactly the maximum time, so its point is
    // exactly origin + dir * max
    let s = Sample { dir: Dir { x: 7, y: -3 }, toi: Toi { n: 1000, d: 1 } };
    let p = sample_point(&s, pt(2, 5));
    assert_eq!(p.d, 1);
    assert_eq!(p.xn, 2 + 7 * 1000);
    assert_eq!(p.yn, 5 - 3 * 1000);
}

#[test]
fn empty_scene_yields_the_two_anchor_escapes() {
    let occs: Vec<RawOccluder> = Vec::new();
    let outline = visibility_outline(pt(0, 0), &occs, 1000);
    assert_eq!(outline.len(), 2);
    // ascending angle: the right anchor (angle 0) before the left (angle pi)
    assert_eq!(outline[0].dir, Dir { x: 1, y: 0 });
    assert_eq!(outline[1].dir, Dir { x: -1, y: 0 });
    let points = outline_points(&outline, pt(0, 0));
    assert_eq!(points[0].xn, 1000);
    assert_eq!(points[0].yn, 0);
    assert_eq!(points[0].d, 1);
    assert_eq!(points[1].xn, -1000);
    assert_eq!(points[1].yn, 0);
    assert_eq!(points[1].d, 1);
}

#[test]
fn single_square_scenario() {
    let occs = vec![RawOccluder { pose: identity_pose(), local: square(20, 0, 5) }];
    let outline = visibility_outline(pt(0, 0), &occs, 1000);
    // two anchors plus three rays for each of the four vertices
    assert_eq!(outline.len(), 14);
    // the exact vertex rays: near corners hit at time 1 (distance = the
    // distance to the corner); far corners hit the near edge first
    let find = |dx: i64, dy: i64| -> Toi {
        outline
            .iter()
            .find(|s| s.dir == Dir { x: dx, y: dy })
            .expect("vertex ray missing")
            .toi
    };
    assert!(find(15, 5).eq_rat(&Toi { n: 1, d: 1 }));
    assert!(find(15, -5).eq_rat(&Toi { n: 1, d: 1 }));
    assert!(find(25, 5).eq_rat(&Toi { n: 3, d: 5 }));
    assert!(find(25, -5).eq_rat(&Toi { n: 3, d: 5 }));
    // epsilon siblings of the near corner land at nearly the same distance
    let corner_dist = (15.0f64 * 15.0 + 5.0 * 5.0).sqrt();
    let cw = rotate_dir(&eps_cw(), Dir { x: 15, y: 5 });
    let eps_sample = outline.iter().find(|s| s.dir == cw).expect("epsilon ray missing");
    let len = ((eps_sample.dir.x as f64).powi(2) + (eps_sample.dir.y as f64).powi(2)).sqrt();
    let dist = toi_f64(&eps_sample.toi) * len;
    assert!((dist - corner_dist).abs() < 0.05);
    // the outline is sorted by polar angle
    for w in outline.windows(2) {
        assert!(angle_le_exec(&w[0].dir, &w[1].dir));
    }
}

#[test]
fn degenerate_occluder_is_skipped() {
    let occs = vec![
        RawOccluder { pose: identity_pose(), local: vec![pt(1, 1), pt(2, 2)] },
        RawOccluder { pose: identity_pose(), local: square(20, 0, 5) },
    ];
    let polys = ingest(&occs);
    assert_eq!(polys.len(), 1);
    let outline = visibility_outline(pt(0, 0), &occs, 1000);
    // the two-vertex occluder contributes no rays and blocks nothing
    assert_eq!(outline.len(), 14);
    let hit = outline
        .iter()
        .find(|s| s.dir == Dir { x: 15, y: 5 })
        .expect("square vertex ray missing");
    assert!(hit.toi.eq_rat(&Toi { n: 1, d: 1 }));
}

#[test]
fn assemble_sorts_stably_and_idempotently() {
    let t1 = Toi { n: 1, d: 1 };
    let t2 = Toi { n: 2, d: 1 };
    let mk = |x: i64, y: i64, t: Toi| Sample { dir: Dir { x, y }, toi: t };
    let samples = vec![
        mk(-1, -1, t1),
        mk(0, 1, t1),
        mk(1, 0, t1),
        // two samples at the same angle, distinguishable by their times
        mk(1, 1, t1),
        mk(2, 2, t2),
        mk(-1, 0, t1),
        mk(0, -1, t1),
    ];
    let sorted = assemble(&samples);
    assert_eq!(sorted.len(), samples.len());
    for w in sorted.windows(2) {
        assert!(angle_le_exec(&w[0].dir, &w[1].dir));
    }
    // ascending atan2 order over (-pi, pi]
    let dirs: Vec<(i64, i64)> = sorted.iter().map(|s| (s.dir.x, s.dir.y)).collect();
    assert_eq!(dirs, vec![(-1, -1), (0, -1), (1, 0), (1, 1), (2, 2), (0, 1), (-1, 0)]);
    // stability: (1, 1) was inserted before the equal-angle (2, 2)
    let i11 = sorted.iter().position(|s| s.dir == Dir { x: 1, y: 1 }).unwrap();
    let i22 = sorted.iter().position(|s| s.dir == Dir { x: 2, y: 2 }).unwrap();
    assert!(i11 < i22);
    // idempotence
    let again = assemble(&sorted);
    assert_eq!(again, sorted);
}

#[test]
fn to_world_applies_rotation_then_translation() {
    // pure translation
    let pose = Pose { tx: 3, ty: 4, rot: Rot::identity() };
    let w = to_world(&pose, &vec![pt(1, 2)]);
    assert_eq!(w, vec![pt(4, 6)]);
    // quarter turn: (1, 0) -> (0, 1)
    let quarter = Rot::new(0, 1, 1).unwrap();
    let pose = Pose { tx: 10, ty: 0, rot: quarter };
    let w = to_world(&pose, &vec![pt(1, 0), pt(0, 1)]);
    assert_eq!(w, vec![pt(10, 1), pt(9, 0)]);
    // an exact rational rotation: (5, 0) by (3, 4, 5) -> (3, 4)
    let r = Rot::new(3, 4, 5).unwrap();
    let pose = Pose { tx: 0, ty: 0, rot: r };
    let w = to_world(&pose, &vec![pt(5, 0)]);
    assert_eq!(w, vec![pt(3, 4)]);
}

#[test]
fn epsilon_rotation_really_turns() {
    let v = Dir { x: 1000000, y: 0 };
    let up = rotate_dir(&eps_ccw(), v);
    let down = rotate_dir(&eps_cw(), v);
    assert!(up.y > 0);
    assert!(down.y < 0);
    // angle order: just below the axis, on it, just above it
    assert!(angle_le_exec(&down, &v));
    assert!(angle_le_exec(&v, &up));
    assert!(!angle_le_exec(&up, &v));
    // the turned angle is about 0.001 radians
    let ang = (up.y as f64).atan2(up.x as f64);
    assert!((ang - 0.001).abs() < 1e-6);
}

#[test]
fn outline_edges_close_the_polygon() {
    let occs = vec![RawOccluder { pose: identity_pose(), local: square(20, 0, 5) }];
    let outline = visibility_outline(pt(0, 0), &occs, 1000);
    let points = outline_points(&outline, pt(0, 0));
    let edges = outline_edges(&points);
    assert_eq!(edges.len(), points.len());
    for (i, e) in edges.iter().enumerate() {
        assert_eq!(e.a, points[i]);
        assert_eq!(e.b, points[(i + 1) % points.len()]);
    }
}

#[test]
fn outline_points_wind_once_around_the_observer() {
    let occs = vec![
        RawOccluder { pose: identity_pose(), local: square(20, 0, 5) },
        RawOccluder { pose: identity_pose(), local: square(-10, 30, 3) },
        RawOccluder { pose: identity_pose(), local: square(0, -40, 8) },
    ];
    let observer = pt(1, 2);
    let outline = visibility_outline(observer, &occs, 1000);
    let points = outline_points(&outline, observer);
    let angles: Vec<f64> = points
        .iter()
        .map(|p| {
            let x = p.xn as f64 / p.d as f64 - observer.x as f64;
            let y = p.yn as f64 / p.d as f64 - observer.y as f64;
            y.atan2(x)
        })
        .collect();
    for w in angles.windows(2) {
        assert!(w[0] <= w[1] + 1e-9);
    }
}

#[test]
fn pipeline_is_deterministic() {
    let occs = vec![
        RawOccluder { pose: identity_pose(), local: square(20, 0, 5) },
        RawOccluder { pose: identity_pose(), local: square(-10, 30, 3) },
    ];
    let a = visibility_outline(pt(1, 2), &occs, 1000);
    let b = visibility_outline(pt(1, 2), &occs, 1000);
    assert_eq!(a, b);
}
