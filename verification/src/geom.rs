//! Basic geometric types: points, direction vectors, rational rotations,
//! poses, rational times of impact, and the bound constants that keep all
//! intermediate arithmetic inside `i128`.

use vstd::prelude::*;

verus! {

/// Largest magnitude allowed for input coordinates (observer, pose
/// translations, local polygon vertices): 2^20 grid units.
pub open spec fn coord_bound() -> int {
    0x10_0000
}

/// Largest magnitude a world-space polygon vertex can reach after a pose is
/// applied: 2^23.
pub open spec fn world_bound() -> int {
    0x80_0000
}

/// Largest denominator allowed for a rational rotation: 2^23.
pub open spec fn rot_bound() -> int {
    0x80_0000
}

/// Largest magnitude allowed for a ray direction component: 2^48.
pub open spec fn dir_bound() -> int {
    0x1_0000_0000_0000
}

/// Largest allowed maximum-scan parameter for a cast: 2^31.
pub open spec fn max_toi_bound() -> int {
    0x8000_0000
}

/// Largest numerator a time of impact can carry: 2^50.
pub open spec fn toi_num_bound() -> int {
    0x4_0000_0000_0000
}

/// Largest denominator a time of impact can carry: 2^73.
pub open spec fn toi_den_bound() -> int {
    0x200_0000_0000_0000_0000
}

/// 2-D cross product of `(ax, ay)` and `(bx, by)`.
pub open spec fn cross2(ax: int, ay: int, bx: int, by: int) -> int {
    ax * by - ay * bx
}

/// Absolute value.
pub open spec fn abs_i(x: int) -> int {
    if x < 0 {
        -x
    } else {
        x
    }
}

/// |x * y| <= a * b whenever |x| <= a and |y| <= b.
pub proof fn lemma_mul_bound(x: int, y: int, a: int, b: int)
    by (nonlinear_arith)
    requires
        -a <= x <= a,
        -b <= y <= b,
        0 <= a,
        0 <= b,
    ensures
        -(a * b) <= x * y <= a * b,
{
}

/// A point on the integer grid, in world or local coordinates.
#[derive(Clone, Copy, PartialEq, Eq, Structural, Debug)]
pub struct Point {
    pub x: i64,
    pub y: i64,
}

impl Point {
    /// Both coordinates have magnitude at most `b`.
    pub open spec fn in_bounds(self, b: int) -> bool {
        -b <= self.x <= b && -b <= self.y <= b
    }
}

/// A direction vector; never normalized, only its direction matters.
#[derive(Clone, Copy, PartialEq, Eq, Structural, Debug)]
pub struct Dir {
    pub x: i64,
    pub y: i64,
}

impl Dir {
    /// Both components have magnitude at most `b`.
    pub open spec fn in_bounds(self, b: int) -> bool {
        -b <= self.x <= b && -b <= self.y <= b
    }

    /// The zero vector, which no valid ray may use.
    pub open spec fn is_zero(self) -> bool {
        self.x == 0 && self.y == 0
    }
}

/// Errors the geometric core can report.
#[derive(Clone, Copy, PartialEq, Eq, Structural, Debug)]
pub enum GeomError {
    /// A ray was built from a zero direction vector.
    InvalidRay,
    /// An occluder polygon has fewer than three vertices or is not convex.
    DegenerateOccluder,
}

/// An exact rotation: the matrix [[c, -s], [s, c]] / d with c^2 + s^2 == d^2.
#[derive(Clone, Copy, PartialEq, Eq, Structural, Debug)]
pub struct Rot {
    pub c: i64,
    pub s: i64,
    pub d: i64,
}

impl Rot {
    /// A valid rotation: positive bounded denominator on the unit circle.
    pub open spec fn wf(self) -> bool {
        &&& 0 < self.d <= rot_bound()
        &&& self.c * self.c + self.s * self.s == self.d * self.d
    }

    /// Builds a rotation, or `None` when `(c, s, d)` does not describe one.
    pub fn new(c: i64, s: i64, d: i64) -> (r: Option<Rot>)
        ensures
            r matches Some(q) ==> q == (Rot { c, s, d }) && q.wf(),
            r is None ==> !(Rot { c, s, d }).wf(),
    {
        if d <= 0 || d > 0x80_0000i64 {
            return None;
        }
        if c < -d || c > d || s < -d || s > d {
            proof {
                if (Rot { c, s, d }).wf() {
                    lemma_rot_component_bound(c as int, s as int, d as int);
                }
            }
            return None;
        }
        proof {
            lemma_mul_bound(c as int, c as int, rot_bound(), rot_bound());
            lemma_mul_bound(s as int, s as int, rot_bound(), rot_bound());
            lemma_mul_bound(d as int, d as int, rot_bound(), rot_bound());
        }
        let cc: i128 = (c as i128) * (c as i128);
        let ss: i128 = (s as i128) * (s as i128);
        let dd: i128 = (d as i128) * (d as i128);
        if cc + ss == dd {
            Some(Rot { c, s, d })
        } else {
            None
        }
    }

    /// The identity rotation.
    pub fn identity() -> (r: Rot)
        ensures
            r.wf(),
            r.c == 1 && r.s == 0 && r.d == 1,
    {
        Rot { c: 1, s: 0, d: 1 }
    }
}

/// If c^2 + s^2 == d^2 with d > 0 then both components lie within [-d, d].
pub proof fn lemma_rot_component_bound(c: int, s: int, d: int)
    by (nonlinear_arith)
    requires
        c * c + s * s == d * d,
        0 < d,
    ensures
        -d <= c <= d,
        -d <= s <= d,
{
}

/// An affine pose: rotation followed by translation by `(tx, ty)`.
#[derive(Clone, Copy, PartialEq, Eq, Structural, Debug)]
pub struct Pose {
    pub tx: i64,
    pub ty: i64,
    pub rot: Rot,
}

impl Pose {
    /// A valid pose: valid rotation, bounded translation.
    pub open spec fn wf(self) -> bool {
        &&& self.rot.wf()
        &&& -coord_bound() <= self.tx <= coord_bound()
        &&& -coord_bound() <= self.ty <= coord_bound()
    }
}

/// A ray: origin plus an unnormalized direction. Times of impact are
/// parametric in this direction: the point at time `t` is `origin + t * dir`.
#[derive(Clone, Copy, PartialEq, Eq, Structural, Debug)]
pub struct Ray {
    pub origin: Point,
    pub dir: Dir,
}

impl Ray {
    /// A valid ray: bounded origin and direction, direction nonzero.
    pub open spec fn wf(self) -> bool {
        &&& self.origin.in_bounds(coord_bound())
        &&& self.dir.in_bounds(dir_bound())
        &&& !self.dir.is_zero()
    }

    /// Builds a ray, rejecting a zero direction vector.
    pub fn new(origin: Point, dir: Dir) -> (r: Result<Ray, GeomError>)
        requires
            origin.in_bounds(coord_bound()),
            dir.in_bounds(dir_bound()),
        ensures
            r matches Ok(q) ==> q == (Ray { origin, dir }) && q.wf(),
            r is Ok <==> !dir.is_zero(),
            r is Err ==> r == Err::<Ray, GeomError>(GeomError::InvalidRay),
    {
        if dir.x == 0 && dir.y == 0 {
            Err(GeomError::InvalidRay)
        } else {
            Ok(Ray { origin, dir })
        }
    }
}

/// A nonnegative rational time of impact `n / d` along a ray direction.
#[derive(Clone, Copy, PartialEq, Eq, Structural, Debug)]
pub struct Toi {
    pub n: i128,
    pub d: i128,
}

impl Toi {
    /// A valid time of impact: nonnegative bounded numerator, positive
    /// bounded denominator.
    pub open spec fn wf(self) -> bool {
        &&& 0 <= self.n <= toi_num_bound()
        &&& 0 < self.d <= toi_den_bound()
    }

    /// self <= other, as rational numbers.
    pub open spec fn rat_le(self, other: Toi) -> bool {
        self.n * other.d <= other.n * self.d
    }

    /// self == other, as rational numbers.
    pub open spec fn rat_eq(self, other: Toi) -> bool {
        self.n * other.d == other.n * self.d
    }

    /// Compares two times of impact as rational numbers.
    pub fn le(&self, other: &Toi) -> (r: bool)
        requires
            self.wf(),
            other.wf(),
        ensures
            r == self.rat_le(*other),
    {
        proof {
            lemma_mul_bound(self.n as int, other.d as int, toi_num_bound(), toi_den_bound());
            lemma_mul_bound(other.n as int, self.d as int, toi_num_bound(), toi_den_bound());
        }
        self.n * other.d <= other.n * self.d
    }

    /// Tests two times of impact for equality as rational numbers.
    pub fn eq_rat(&self, other: &Toi) -> (r: bool)
        requires
            self.wf(),
            other.wf(),
        ensures
            r == self.rat_eq(*other),
    {
        proof {
            lemma_mul_bound(self.n as int, other.d as int, toi_num_bound(), toi_den_bound());
            lemma_mul_bound(other.n as int, self.d as int, toi_num_bound(), toi_den_bound());
        }
        self.n * other.d == other.n * self.d
    }
}

} // verus!
