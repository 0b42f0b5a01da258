//! The deterministic polar-angle order around the observer, stated and
//! decided exactly: directions are first ranked by which half of the plane
//! they lie in, then compared within a half by the sign of their cross
//! product. This matches ascending `atan2` over `(-pi, pi]`.

use vstd::prelude::*;
use crate::geom::{dir_bound, Dir, lemma_mul_bound};

verus! {

/// Which band of `(-pi, pi]` a direction's polar angle falls in:
/// 0 for the open lower half `(-pi, 0)`, 1 for angle `0` (the positive x
/// axis, where the zero vector also lands), 2 for the open upper half
/// `(0, pi)`, 3 for angle `pi` (the negative x axis).
pub open spec fn angle_class(v: Dir) -> int {
    if v.y < 0 {
        0
    } else if v.y == 0 && v.x >= 0 {
        1
    } else if v.y > 0 {
        2
    } else {
        3
    }
}

/// Cross product of two directions.
pub open spec fn dir_cross(a: Dir, b: Dir) -> int {
    a.x * b.y - a.y * b.x
}

/// The polar angle of `a` is at most the polar angle of `b`, both measured
/// around the observer with `atan2` over `(-pi, pi]`. Within the two open
/// half-plane bands the order is decided by the cross product; within the
/// two axis bands all directions share one angle.
pub open spec fn angle_le(a: Dir, b: Dir) -> bool {
    if angle_class(a) != angle_class(b) {
        angle_class(a) < angle_class(b)
    } else if angle_class(a) == 0 || angle_class(a) == 2 {
        dir_cross(a, b) >= 0
    } else {
        true
    }
}

/// The angular order is total.
pub proof fn lemma_angle_total(a: Dir, b: Dir)
    ensures
        angle_le(a, b) || angle_le(b, a),
{
    if angle_class(a) == angle_class(b) && (angle_class(a) == 0 || angle_class(a) == 2) {
        assert(dir_cross(a, b) >= 0 || dir_cross(b, a) >= 0) by (nonlinear_arith);
    }
}

/// The angular order is reflexive.
pub proof fn lemma_angle_refl(a: Dir)
    ensures
        angle_le(a, a),
{
    if angle_class(a) == 0 || angle_class(a) == 2 {
        assert(dir_cross(a, a) >= 0) by (nonlinear_arith);
    }
}

/// Cross-product order is transitive among directions that share the open
/// upper half plane.
proof fn lemma_cross_trans_upper(ax: int, ay: int, bx: int, by: int, cx: int, cy: int)
    by (nonlinear_arith)
    requires
        ay > 0,
        by > 0,
        cy > 0,
        ax * by - ay * bx >= 0,
        bx * cy - by * cx >= 0,
    ensures
        ax * cy - ay * cx >= 0,
{
}

/// The angular order is transitive.
pub proof fn lemma_angle_trans(a: Dir, b: Dir, c: Dir)
    requires
        angle_le(a, b),
        angle_le(b, c),
    ensures
        angle_le(a, c),
{
    if angle_class(a) == angle_class(b) && angle_class(b) == angle_class(c) {
        if angle_class(a) == 2 {
            lemma_cross_trans_upper(
                a.x as int,
                a.y as int,
                b.x as int,
                b.y as int,
                c.x as int,
                c.y as int,
            );
        } else if angle_class(a) == 0 {
            assert((-a.x as int) * (-b.y as int) - (-a.y as int) * (-b.x as int) == dir_cross(
                a,
                b,
            )) by (nonlinear_arith);
            assert((-b.x as int) * (-c.y as int) - (-b.y as int) * (-c.x as int) == dir_cross(
                b,
                c,
            )) by (nonlinear_arith);
            lemma_cross_trans_upper(
                -a.x as int,
                -a.y as int,
                -b.x as int,
                -b.y as int,
                -c.x as int,
                -c.y as int,
            );
            assert(dir_cross(a, c) == (-a.x as int) * (-c.y as int) - (-a.y as int) * (
            -c.x as int)) by (nonlinear_arith);
        }
    }
}

/// Which band a rational vector's angle falls in, given by its numerator
/// pair; the (positive) denominator cannot change the band.
pub open spec fn angle_class_rat(x: int, y: int) -> int {
    if y < 0 {
        0
    } else if y == 0 && x >= 0 {
        1
    } else if y > 0 {
        2
    } else {
        3
    }
}

/// The angular order between two rational vectors, each given by its
/// numerator pair over some positive denominator.
pub open spec fn rat_angle_le(x1: int, y1: int, x2: int, y2: int) -> bool {
    if angle_class_rat(x1, y1) != angle_class_rat(x2, y2) {
        angle_class_rat(x1, y1) < angle_class_rat(x2, y2)
    } else if angle_class_rat(x1, y1) == 0 || angle_class_rat(x1, y1) == 2 {
        x1 * y2 - y1 * x2 >= 0
    } else {
        true
    }
}

/// Products commute across pairings: (p q)(r s) == (p r)(q s).
proof fn lemma_mul_rearrange(p: int, q: int, r: int, s: int)
    by (nonlinear_arith)
    ensures
        (p * q) * (r * s) == (p * r) * (q * s),
{
}

/// Scaling a cross product's operands scales the cross product.
proof fn lemma_cross_scale(ax: int, ay: int, bx: int, by: int, ka: int, kb: int)
    ensures
        (ka * ax) * (kb * by) - (ka * ay) * (kb * bx) == (ka * kb) * (ax * by - ay * bx),
{
    lemma_mul_rearrange(ka, ax, kb, by);
    lemma_mul_rearrange(ka, ay, kb, bx);
    vstd::arithmetic::mul::lemma_mul_is_distributive_sub(ka * kb, ax * by, ay * bx);
}

/// Scaling two directions by positive factors leaves their angular order
/// unchanged: the order of the scaled vectors is the order of the directions.
pub proof fn lemma_angle_le_scaled(a: Dir, b: Dir, ka: int, kb: int)
    requires
        ka > 0,
        kb > 0,
    ensures
        rat_angle_le(ka * a.x, ka * a.y, kb * b.x, kb * b.y) == angle_le(a, b),
{
    assert(angle_class_rat(ka * a.x, ka * a.y) == angle_class(a)) by (nonlinear_arith)
        requires
            ka > 0,
    ;
    assert(angle_class_rat(kb * b.x, kb * b.y) == angle_class(b)) by (nonlinear_arith)
        requires
            kb > 0,
    ;
    lemma_cross_scale(a.x as int, a.y as int, b.x as int, b.y as int, ka, kb);
    assert(ka * kb > 0) by (nonlinear_arith)
        requires
            ka > 0,
            kb > 0,
    ;
    assert(((ka * kb) * dir_cross(a, b) >= 0) == (dir_cross(a, b) >= 0)) by (nonlinear_arith)
        requires
            ka * kb > 0,
    ;
}

/// Decides the angular order between two bounded directions.
pub fn angle_le_exec(a: &Dir, b: &Dir) -> (r: bool)
    requires
        a.in_bounds(dir_bound()),
        b.in_bounds(dir_bound()),
    ensures
        r == angle_le(*a, *b),
{
    let ca: u8 = if a.y < 0 {
        0
    } else if a.y == 0 && a.x >= 0 {
        1
    } else if a.y > 0 {
        2
    } else {
        3
    };
    let cb: u8 = if b.y < 0 {
        0
    } else if b.y == 0 && b.x >= 0 {
        1
    } else if b.y > 0 {
        2
    } else {
        3
    };
    if ca != cb {
        ca < cb
    } else if ca == 0 || ca == 2 {
        proof {
            lemma_mul_bound(a.x as int, b.y as int, dir_bound(), dir_bound());
            lemma_mul_bound(a.y as int, b.x as int, dir_bound(), dir_bound());
        }
        (a.x as i128) * (b.y as i128) - (a.y as i128) * (b.x as i128) >= 0
    } else {
        true
    }
}

} // verus!
