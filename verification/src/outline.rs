//! The outline assembler: sorts impact samples by polar angle around the
//! observer (stable, so samples with equal angles keep their insertion
//! order), turns them into exact outline points, and links consecutive
//! points into the edges of a closed polygon.

use vstd::prelude::*;
use vstd::multiset::Multiset;
use crate::angle::{angle_le, angle_le_exec, lemma_angle_refl, lemma_angle_total, lemma_angle_trans};
use crate::geom::{
    coord_bound, dir_bound, toi_den_bound, toi_num_bound, Dir, Point, Toi, lemma_mul_bound,
};

verus! {

/// One sample of the visibility pass: the ray direction it was cast along
/// and the time of impact along that direction (an escape sample carries the
/// maximum scan time). The sampled world point is `observer + toi * dir`.
#[derive(Clone, Copy, PartialEq, Eq, Structural, Debug)]
pub struct Sample {
    pub dir: Dir,
    pub toi: Toi,
}

impl Sample {
    /// A valid sample: bounded direction, valid time of impact.
    pub open spec fn wf(self) -> bool {
        &&& self.dir.in_bounds(dir_bound())
        &&& self.toi.wf()
    }
}

/// Inserts `x` into the angularly sorted `s`, after every element whose
/// angle is at most the angle of `x` (the stable position).
pub open spec fn ins(x: Sample, s: Seq<Sample>) -> Seq<Sample>
    decreases s.len(),
{
    if s.len() == 0 {
        seq![x]
    } else if angle_le(s.last().dir, x.dir) {
        s.push(x)
    } else {
        ins(x, s.drop_last()).push(s.last())
    }
}

/// Stable insertion sort of samples by polar angle.
pub open spec fn isort(s: Seq<Sample>) -> Seq<Sample>
    decreases s.len(),
{
    if s.len() == 0 {
        Seq::empty()
    } else {
        ins(s.last(), isort(s.drop_last()))
    }
}

/// Non-decreasing polar angle throughout.
pub open spec fn sorted_by_angle(s: Seq<Sample>) -> bool {
    forall|i: int, j: int| 0 <= i <= j < s.len() ==> angle_le(s[i].dir, s[j].dir)
}

/// Inserting at the stable position is the same as the recursive `ins`.
proof fn lemma_ins_position(s: Seq<Sample>, x: Sample, j: int)
    requires
        0 <= j <= s.len(),
        forall|k: int| j <= k < s.len() ==> !angle_le(#[trigger] s[k].dir, x.dir),
        j > 0 ==> angle_le(s[j - 1].dir, x.dir),
    ensures
        ins(x, s) == s.insert(j, x),
    decreases s.len(),
{
    if s.len() == 0 {
        assert(ins(x, s) =~= s.insert(0, x));
    } else if angle_le(s.last().dir, x.dir) {
        assert(j == s.len()) by {
            if j < s.len() {
                assert(!angle_le(s[s.len() - 1].dir, x.dir));
            }
        }
        assert(ins(x, s) =~= s.insert(j, x));
    } else {
        assert(j < s.len()) by {
            if j == s.len() {
                assert(angle_le(s[j - 1].dir, x.dir));
            }
        }
        assert(forall|k: int|
            j <= k < s.drop_last().len() ==> !angle_le(#[trigger] s.drop_last()[k].dir, x.dir));
        lemma_ins_position(s.drop_last(), x, j);
        assert(ins(x, s) == ins(x, s.drop_last()).push(s.last()));
        assert(s.drop_last().insert(j, x).push(s.last()) =~= s.insert(j, x));
    }
}

/// Inserting into a sorted sequence keeps it sorted.
pub proof fn lemma_ins_sorted(x: Sample, s: Seq<Sample>)
    requires
        sorted_by_angle(s),
    ensures
        sorted_by_angle(ins(x, s)),
    decreases s.len(),
{
    if s.len() == 0 {
        lemma_angle_refl(x.dir);
    } else if angle_le(s.last().dir, x.dir) {
        let r = s.push(x);
        lemma_angle_refl(x.dir);
        assert forall|i: int, j: int| 0 <= i <= j < r.len() implies angle_le(
            r[i].dir,
            r[j].dir,
        ) by {
            if j == r.len() - 1 && i < j {
                lemma_angle_trans(s[i].dir, s.last().dir, x.dir);
            }
        }
    } else {
        lemma_angle_total(s.last().dir, x.dir);
        lemma_ins_sorted(x, s.drop_last());
        let q = ins(x, s.drop_last());
        let r = q.push(s.last());
        lemma_ins_contents(x, s.drop_last());
        assert forall|i: int, j: int| 0 <= i <= j < r.len() implies angle_le(
            r[i].dir,
            r[j].dir,
        ) by {
            if j == r.len() - 1 {
                if i < j {
                    // q[i] is either x or an element of s.drop_last(); both
                    // are angularly at most s.last().
                    assert(q.to_multiset() == s.drop_last().to_multiset().insert(x));
                    assert(q.to_multiset().count(q[i]) > 0) by {
                        broadcast use vstd::seq_lib::group_to_multiset_ensures;

                        assert(q.contains(q[i]));
                    }
                    if q[i] == x {
                        assert(angle_le(x.dir, s.last().dir));
                    } else {
                        assert(s.drop_last().to_multiset().count(q[i]) > 0);
                        assert(s.drop_last().contains(q[i])) by {
                            broadcast use vstd::seq_lib::group_to_multiset_ensures;

                        }
                        let m = choose|m: int|
                            0 <= m < s.drop_last().len() && s.drop_last()[m] == q[i];
                        assert(angle_le(s[m].dir, s.last().dir));
                    }
                } else {
                    lemma_angle_refl(s.last().dir);
                }
            }
        }
    }
}

/// `ins` adds exactly one copy of the inserted element.
pub proof fn lemma_ins_contents(x: Sample, s: Seq<Sample>)
    ensures
        ins(x, s).to_multiset() == s.to_multiset().insert(x),
        ins(x, s).len() == s.len() + 1,
    decreases s.len(),
{
    broadcast use vstd::seq_lib::group_to_multiset_ensures;

    if s.len() == 0 {
        assert(ins(x, s) =~= Seq::empty().push(x));
        assert(Seq::<Sample>::empty().to_multiset() =~= Multiset::empty());
        assert(ins(x, s).to_multiset() =~= s.to_multiset().insert(x));
    } else if angle_le(s.last().dir, x.dir) {
    } else {
        lemma_ins_contents(x, s.drop_last());
        assert(s.drop_last().push(s.last()) =~= s);
        assert(ins(x, s).to_multiset() =~= s.to_multiset().insert(x));
    }
}

/// The sort returns an angularly sorted sequence.
pub proof fn lemma_isort_sorted(s: Seq<Sample>)
    ensures
        sorted_by_angle(isort(s)),
    decreases s.len(),
{
    if s.len() > 0 {
        lemma_isort_sorted(s.drop_last());
        lemma_ins_sorted(s.last(), isort(s.drop_last()));
    }
}

/// The sort returns a permutation: same elements, same multiplicities.
pub proof fn lemma_isort_permutes(s: Seq<Sample>)
    ensures
        isort(s).to_multiset() == s.to_multiset(),
        isort(s).len() == s.len(),
    decreases s.len(),
{
    broadcast use vstd::seq_lib::group_to_multiset_ensures;

    if s.len() > 0 {
        lemma_isort_permutes(s.drop_last());
        lemma_ins_contents(s.last(), isort(s.drop_last()));
        assert(s.drop_last().push(s.last()) =~= s);
        assert(isort(s).to_multiset() =~= s.to_multiset());
    }
}

/// Sorting an already sorted sequence changes nothing.
pub proof fn lemma_isort_of_sorted(s: Seq<Sample>)
    requires
        sorted_by_angle(s),
    ensures
        isort(s) == s,
    decreases s.len(),
{
    if s.len() == 0 {
        assert(isort(s) =~= s);
    } else {
        assert(sorted_by_angle(s.drop_last()));
        lemma_isort_of_sorted(s.drop_last());
        if s.len() == 1 {
            assert(isort(s) =~= s);
        } else {
            assert(angle_le(s.drop_last().last().dir, s.last().dir));
            assert(ins(s.last(), s.drop_last()) =~= s);
        }
    }
}

/// Sorting is idempotent.
pub proof fn lemma_isort_idempotent(s: Seq<Sample>)
    ensures
        isort(isort(s)) == isort(s),
{
    lemma_isort_sorted(s);
    lemma_isort_of_sorted(isort(s));
}

/// Sorts the samples of one visibility pass by polar angle around the
/// observer, ascending, stably: samples with equal angles keep their
/// relative order. The result is exactly the stable insertion sort of the
/// input, hence a sorted permutation of it, and sorting again would change
/// nothing.
pub fn assemble(samples: &Vec<Sample>) -> (r: Vec<Sample>)
    requires
        forall|i: int| 0 <= i < samples@.len() ==> (#[trigger] samples@[i]).wf(),
    ensures
        r@ == isort(samples@),
        sorted_by_angle(r@),
        r@.to_multiset() == samples@.to_multiset(),
        r@.len() == samples@.len(),
{
    let n = samples.len();
    let mut out: Vec<Sample> = Vec::new();
    let mut i: usize = 0;
    while i < n
        invariant
            0 <= i <= n,
            n == samples@.len(),
            forall|k: int| 0 <= k < samples@.len() ==> (#[trigger] samples@[k]).wf(),
            out@ == isort(samples@.take(i as int)),
            forall|k: int| 0 <= k < out@.len() ==> (#[trigger] out@[k]).wf(),
        decreases n - i,
    {
        let x = samples[i];
        let mut j: usize = out.len();
        while j > 0 && !angle_le_exec(&out[j - 1].dir, &x.dir)
            invariant
                0 <= j <= out@.len(),
                forall|k: int| 0 <= k < out@.len() ==> (#[trigger] out@[k]).wf(),
                x.wf(),
                forall|k: int| j <= k < out@.len() ==> !angle_le(#[trigger] out@[k].dir, x.dir),
            decreases j,
        {
            j = j - 1;
        }
        proof {
            lemma_ins_position(out@, x, j as int);
            assert(samples@.take(i as int + 1).drop_last() =~= samples@.take(i as int));
            assert(samples@.take(i as int + 1).last() == samples@[i as int]);
        }
        out.insert(j, x);
        i = i + 1;
    }
    proof {
        assert(samples@.take(n as int) =~= samples@);
        lemma_isort_sorted(samples@);
        lemma_isort_permutes(samples@);
    }
    out
}

/// An exact outline point: the rational point `(xn / d, yn / d)`.
#[derive(Clone, Copy, PartialEq, Eq, Structural, Debug)]
pub struct OutPoint {
    pub xn: i128,
    pub yn: i128,
    pub d: i128,
}

/// Numerator of the x coordinate of the world point a sample stands for:
/// `observer + toi * dir`, brought over the denominator `toi.d`.
pub open spec fn out_xn(s: Sample, obs: Point) -> int {
    obs.x * s.toi.d + s.toi.n * s.dir.x
}

/// Numerator of the y coordinate of the world point a sample stands for.
pub open spec fn out_yn(s: Sample, obs: Point) -> int {
    obs.y * s.toi.d + s.toi.n * s.dir.y
}

/// The exact outline point a sample stands for.
pub open spec fn out_point(s: Sample, obs: Point) -> OutPoint {
    OutPoint { xn: out_xn(s, obs) as i128, yn: out_yn(s, obs) as i128, d: s.toi.d }
}

/// Computes the exact world point a sample stands for.
pub fn sample_point(s: &Sample, observer: Point) -> (r: OutPoint)
    requires
        s.wf(),
        observer.in_bounds(coord_bound()),
    ensures
        r == out_point(*s, observer),
        r.d == s.toi.d,
        r.xn == out_xn(*s, observer),
        r.yn == out_yn(*s, observer),
{
    proof {
        lemma_mul_bound(observer.x as int, s.toi.d as int, coord_bound(), toi_den_bound());
        lemma_mul_bound(observer.y as int, s.toi.d as int, coord_bound(), toi_den_bound());
        lemma_mul_bound(s.toi.n as int, s.dir.x as int, toi_num_bound(), dir_bound());
        lemma_mul_bound(s.toi.n as int, s.dir.y as int, toi_num_bound(), dir_bound());
    }
    OutPoint {
        xn: (observer.x as i128) * s.toi.d + s.toi.n * (s.dir.x as i128),
        yn: (observer.y as i128) * s.toi.d + s.toi.n * (s.dir.y as i128),
        d: s.toi.d,
    }
}

/// Maps sorted samples to their exact outline points, in order.
pub fn outline_points(samples: &Vec<Sample>, observer: Point) -> (r: Vec<OutPoint>)
    requires
        forall|i: int| 0 <= i < samples@.len() ==> (#[trigger] samples@[i]).wf(),
        observer.in_bounds(coord_bound()),
    ensures
        r@.len() == samples@.len(),
        forall|i: int|
            0 <= i < samples@.len() ==> r@[i] == out_point(#[trigger] samples@[i], observer),
{
    let n = samples.len();
    let mut out: Vec<OutPoint> = Vec::new();
    let mut i: usize = 0;
    while i < n
        invariant
            0 <= i <= n,
            n == samples@.len(),
            forall|k: int| 0 <= k < samples@.len() ==> (#[trigger] samples@[k]).wf(),
            observer.in_bounds(coord_bound()),
            out@.len() == i,
            forall|k: int| 0 <= k < i ==> out@[k] == out_point(#[trigger] samples@[k], observer),
        decreases n - i,
    {
        let p = sample_point(&samples[i], observer);
        out.push(p);
        i = i + 1;
    }
    out
}

/// The assembler's order is geometric: for two samples with positive times
/// of impact, the angular order of their ray directions equals the angular
/// order, around the observer, of the exact world points they stand for
/// (each `point - observer` given by its numerator pair over the sample's
/// positive denominator).
pub proof fn lemma_outline_order_geometric(a: Sample, b: Sample, obs: Point)
    requires
        a.toi.n > 0,
        b.toi.n > 0,
    ensures
        out_xn(a, obs) - obs.x * a.toi.d == a.toi.n * a.dir.x,
        out_yn(a, obs) - obs.y * a.toi.d == a.toi.n * a.dir.y,
        crate::angle::rat_angle_le(
            out_xn(a, obs) - obs.x * a.toi.d,
            out_yn(a, obs) - obs.y * a.toi.d,
            out_xn(b, obs) - obs.x * b.toi.d,
            out_yn(b, obs) - obs.y * b.toi.d,
        ) == angle_le(a.dir, b.dir),
{
    crate::angle::lemma_angle_le_scaled(a.dir, b.dir, a.toi.n as int, b.toi.n as int);
}

/// One edge of the closed outline.
#[derive(Clone, Copy, PartialEq, Eq, Structural, Debug)]
pub struct Segment {
    pub a: OutPoint,
    pub b: OutPoint,
}

/// Links consecutive outline points into the edges of a closed polygon: one
/// edge from each point to the next, and one from the last point back to the
/// first.
pub fn outline_edges(points: &Vec<OutPoint>) -> (r: Vec<Segment>)
    ensures
        r@.len() == points@.len(),
        forall|i: int|
            0 <= i < points@.len() ==> #[trigger] r@[i] == (Segment {
                a: points@[i],
                b: points@[if i + 1 == points@.len() {
                    0int
                } else {
                    i + 1
                }],
            }),
{
    let n = points.len();
    let mut out: Vec<Segment> = Vec::new();
    let mut i: usize = 0;
    while i < n
        invariant
            0 <= i <= n,
            n == points@.len(),
            out@.len() == i,
            forall|k: int|
                0 <= k < i ==> #[trigger] out@[k] == (Segment {
                    a: points@[k],
                    b: points@[if k + 1 == points@.len() {
                        0int
                    } else {
                        k + 1
                    }],
                }),
        decreases n - i,
    {
        let j = if i + 1 == n {
            0
        } else {
            i + 1
        };
        out.push(Segment { a: points[i], b: points[j] });
        i = i + 1;
    }
    out
}

} // verus!
