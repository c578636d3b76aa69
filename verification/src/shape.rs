//! Points, segments and arcs, with parametrization, nearest-point search and
//! point intersection.
//!
//! A parameter `t` locates a position along a shape: 0 is the shape's start,
//! 1 (the scalar whose bits are `SCALE`) its end.  Every executable function
//! returns exactly the value of its specification model, so the geometric
//! claims below are stated over those models.

use vstd::prelude::*;
use crate::fx::{Fx, SCALE, fx_add, fx_sub, fx_neg, fx_mul, fx_div, sqrt_floor, sat64, iabs,
    abs_bits, isqrt128, lemma_fx_mul_zero, lemma_fx_mul_unit, lemma_fx_square_nonneg,
    lemma_fx_div_zero, lemma_sqrt_floor_zero, lemma_sqrt_floor_positive};
use crate::angle::{TAU_BITS, norm_residue, delta_spec, norm_angle, angle_delta,
    lemma_delta_range};
use crate::trig::{cos_model, sin_model, theta_model, cos_fx, sin_fx, theta_of};

verus! {

/// The scalar with the given bits; a spec-level shorthand.
pub open spec fn fxb(b: int) -> Fx {
    Fx { bits: b as i64 }
}

/// A point of the plane, an ordered pair of fixed-point coordinates.
#[derive(Copy, Clone, Debug, PartialEq, Eq, Structural)]
pub struct Point {
    pub x: Fx,
    pub y: Fx,
}

/// Coordinatewise saturating sum.
pub open spec fn pt_add(p: Point, q: Point) -> Point {
    Point { x: fxb(fx_add(p.x.bits as int, q.x.bits as int)), y: fxb(fx_add(p.y.bits as int, q.y.bits as int)) }
}

/// Coordinatewise saturating difference.
pub open spec fn pt_sub(p: Point, q: Point) -> Point {
    Point { x: fxb(fx_sub(p.x.bits as int, q.x.bits as int)), y: fxb(fx_sub(p.y.bits as int, q.y.bits as int)) }
}

/// Coordinatewise product with a scalar.
pub open spec fn pt_scale(p: Point, k: Fx) -> Point {
    Point { x: fxb(fx_mul(p.x.bits as int, k.bits as int)), y: fxb(fx_mul(p.y.bits as int, k.bits as int)) }
}

/// The bits of the dot product of two points.
pub open spec fn pt_dot(p: Point, q: Point) -> int {
    fx_add(fx_mul(p.x.bits as int, q.x.bits as int), fx_mul(p.y.bits as int, q.y.bits as int))
}

/// The Euclidean distance between two points: the rounded-down square root
/// of the exact sum of the squared coordinate differences, clipped at the
/// scalar ceiling.  The squares are taken on the full difference bits, with
/// no intermediate truncation, so the distance is 0 exactly when the two
/// points are bit-identical.
pub open spec fn pt_dist(p: Point, q: Point) -> Fx {
    let d = pt_sub(p, q);
    fxb(sat64(sqrt_floor(
        (d.x.bits as int) * (d.x.bits as int) + (d.y.bits as int) * (d.y.bits as int),
    )))
}

/// Distance is 0 exactly when the two points are bit-identical: no internal
/// tolerance is applied.
pub proof fn lemma_dist_zero_iff(p: Point, q: Point)
    ensures
        pt_dist(p, q) == fxb(0) <==> p == q,
{
    let d = pt_sub(p, q);
    let dx = d.x.bits as int;
    let dy = d.y.bits as int;
    if p == q {
        assert(dx == 0 && dy == 0);
        lemma_sqrt_floor_zero();
    } else {
        assert(dx != 0 || dy != 0);
        assert(dx * dx + dy * dy >= 1) by (nonlinear_arith)
            requires
                dx != 0 || dy != 0,
        ;
        lemma_sqrt_floor_positive(dx * dx + dy * dy);
    }
}

/// Distance is symmetric wherever the coordinate differences are
/// representable (at the very ends of the scalar range a difference
/// saturates and its reverse cannot be formed).
pub proof fn lemma_dist_symmetric(p: Point, q: Point)
    requires
        i64::MIN < p.x.bits - q.x.bits <= i64::MAX,
        i64::MIN < p.y.bits - q.y.bits <= i64::MAX,
    ensures
        pt_dist(p, q) == pt_dist(q, p),
{
    let d = pt_sub(p, q);
    let e = pt_sub(q, p);
    assert(e.x.bits as int == -(d.x.bits as int) && e.y.bits as int == -(d.y.bits as int));
    let dx = d.x.bits as int;
    let dy = d.y.bits as int;
    assert((-dx) * (-dx) == dx * dx && (-dy) * (-dy) == dy * dy) by (nonlinear_arith);
}

impl Point {
    /// The point with the given coordinates.
    pub fn new(x: Fx, y: Fx) -> (r: Point)
        ensures
            r == (Point { x, y }),
    {
        Point { x, y }
    }

    /// Coordinatewise saturating sum.
    pub fn plus(self, o: Point) -> (r: Point)
        ensures
            r == pt_add(self, o),
    {
        Point { x: self.x.plus(o.x), y: self.y.plus(o.y) }
    }

    /// Coordinatewise saturating difference.
    pub fn minus(self, o: Point) -> (r: Point)
        ensures
            r == pt_sub(self, o),
    {
        Point { x: self.x.minus(o.x), y: self.y.minus(o.y) }
    }

    /// Coordinatewise product with a scalar.
    pub fn scale(self, k: Fx) -> (r: Point)
        ensures
            r == pt_scale(self, k),
    {
        Point { x: self.x.times(k), y: self.y.times(k) }
    }

    /// Dot product.
    pub fn dot(self, o: Point) -> (r: Fx)
        ensures
            r.bits == pt_dot(self, o),
    {
        self.x.times(o.x).plus(self.y.times(o.y))
    }

    /// Euclidean distance to another point, computed on the exact 128-bit
    /// sum of the squared coordinate differences.
    pub fn dist(self, o: Point) -> (r: Fx)
        ensures
            r == pt_dist(self, o),
            r.bits >= 0,
    {
        let d: Point = self.minus(o);
        let mx: u64 = abs_bits(d.x.bits);
        let my: u64 = abs_bits(d.y.bits);
        proof {
            assert((mx as int) * (mx as int) == (d.x.bits as int) * (d.x.bits as int)
                && (my as int) * (my as int) == (d.y.bits as int) * (d.y.bits as int)
                && (mx as int) * (mx as int) + (my as int) * (my as int)
                    <= 0x80000000000000000000000000000000u128 as int) by (nonlinear_arith)
                requires
                    mx == iabs(d.x.bits as int),
                    my == iabs(d.y.bits as int),
                    mx <= 9223372036854775808u64,
                    my <= 9223372036854775808u64,
            ;
        }
        let sx: u128 = (mx as u128) * (mx as u128);
        let sy: u128 = (my as u128) * (my as u128);
        let n: u128 = sx + sy;
        let root: u64 = isqrt128(n);
        if root > 9223372036854775807u64 {
            Fx { bits: i64::MAX }
        } else {
            Fx { bits: root as i64 }
        }
    }
}

/// A shape: a degenerate point, a finite segment, or a circular arc whose
/// signed angular extent `circ` may exceed a full turn in either direction.
#[derive(Copy, Clone, Debug, PartialEq, Eq, Structural)]
pub enum Shape {
    Point(Point),
    Segment(Point, Point),
    Arc { center: Point, radius: Fx, start: Fx, circ: Fx },
}

/// The angle bits of an arc's point at parameter `t`: the start angle plus
/// `t` times the extent, normalized into `[0, TAU_BITS)`.
pub open spec fn arc_angle(start: int, circ: int, t: int) -> int {
    norm_residue(fx_add(start, fx_mul(t, circ)))
}

/// The point of an arc's circle at the normalized angle bits `na`.
pub open spec fn arc_point(center: Point, radius: int, na: int) -> Point {
    Point {
        x: fxb(fx_add(center.x.bits as int, fx_mul(radius, cos_model(na)))),
        y: fxb(fx_add(center.y.bits as int, fx_mul(radius, sin_model(na)))),
    }
}

/// The point of a shape at parameter `t`.
pub open spec fn param_spec(s: Shape, t: Fx) -> Point {
    match s {
        Shape::Point(p) => p,
        Shape::Segment(a, b) => Point {
            x: fxb(fx_add(
                fx_mul(b.x.bits as int, t.bits as int),
                fx_mul(a.x.bits as int, fx_sub(SCALE as int, t.bits as int)),
            )),
            y: fxb(fx_add(
                fx_mul(b.y.bits as int, t.bits as int),
                fx_mul(a.y.bits as int, fx_sub(SCALE as int, t.bits as int)),
            )),
        },
        Shape::Arc { center, radius, start, circ } => arc_point(
            center,
            radius.bits as int,
            arc_angle(start.bits as int, circ.bits as int, t.bits as int),
        ),
    }
}

impl Shape {
    /// The point of the shape at parameter `t`: a point shape ignores `t`, a
    /// segment interpolates linearly between its ends (extrapolating outside
    /// `[0, 1]`), and an arc walks `t` times its angular extent from its
    /// start angle.
    pub fn param(&self, t: Fx) -> (r: Point)
        ensures
            r == param_spec(*self, t),
    {
        match *self {
            Shape::Point(p) => p,
            Shape::Segment(a, b) => {
                let omt: Fx = Fx { bits: SCALE }.minus(t);
                Point {
                    x: b.x.times(t).plus(a.x.times(omt)),
                    y: b.y.times(t).plus(a.y.times(omt)),
                }
            },
            Shape::Arc { center, radius, start, circ } => {
                let ang: Fx = start.plus(t.times(circ));
                let (na, _turns) = norm_angle(ang);
                let c: Fx = cos_fx(na);
                let s: Fx = sin_fx(na);
                Point { x: center.x.plus(radius.times(c)), y: center.y.plus(radius.times(s)) }
            },
        }
    }
}

/// The nearest-point parameter of a query point on a segment: the projection
/// of the query onto the segment's line, clamped into `[0, 1]`.  A degenerate
/// segment whose endpoints coincide (to the representation's resolution) gets
/// the deterministic fallback parameter 0 instead of an undefined quotient.
pub open spec fn seg_t(a: Point, b: Point, q: Point) -> Fx {
    let delta = pt_sub(b, a);
    let rel = pt_sub(q, a);
    let dd = pt_dot(delta, delta);
    if dd == 0 {
        fxb(0)
    } else {
        let x = fx_div(pt_dot(delta, rel), dd);
        if x > SCALE {
            fxb(SCALE as int)
        } else if x < 0 {
            fxb(0)
        } else {
            fxb(x)
        }
    }
}

/// The unsigned angular extent of an arc's sweep.
pub open spec fn arc_size(circ: int) -> int {
    if circ < 0 {
        fx_neg(circ)
    } else {
        circ
    }
}

/// Where the angularly nearest direction first falls within the sweep, given
/// the signed shortest difference `x` from the start angle to the query's
/// polar angle: the offset from the sweep's own origin, measured along the
/// sweep's direction.
pub open spec fn arc_offset(circ: int, x: int) -> int {
    if x < 0 && circ < 0 {
        -x
    } else if x >= 0 && circ < 0 {
        TAU_BITS - x
    } else if x < 0 {
        TAU_BITS + x
    } else {
        x
    }
}

/// One nearest-point candidate per revolution of the sweep: starting at
/// offset `cur`, every full turn until the sweep's extent `size` is passed
/// contributes the candidate at parameter `cur / size`.
pub open spec fn arc_sweep(s: Shape, q: Point, size: int, cur: int) -> Seq<(Fx, Fx)>
    decreases (if size - cur >= 0 { size - cur } else { 0 })
        when i64::MIN <= cur <= i64::MAX && size <= i64::MAX
{
    if cur < size {
        let t = fxb(fx_div(cur, size));
        seq![(pt_dist(param_spec(s, t), q), t)] + arc_sweep(s, q, size, fx_add(cur, TAU_BITS as int))
    } else {
        Seq::empty()
    }
}

/// All locally nearest candidates of a query point on a shape, as
/// (distance, parameter) pairs: one for a point or a segment; for an arc the
/// boundary endpoints when the nearest direction falls outside the sweep,
/// then one candidate per revolution of the sweep.
pub open spec fn nearpoints_spec(s: Shape, q: Point) -> Seq<(Fx, Fx)> {
    match s {
        Shape::Point(p) => seq![(pt_dist(p, q), fxb(0))],
        Shape::Segment(a, b) => {
            let t = seg_t(a, b, q);
            seq![(pt_dist(param_spec(s, t), q), t)]
        },
        Shape::Arc { center, radius, start, circ } => {
            let delta = pt_sub(q, center);
            let theta = theta_model(delta.y.bits as int, delta.x.bits as int);
            let d0 = delta_spec(start.bits as int, theta);
            let d1 = delta_spec(fx_add(start.bits as int, circ.bits as int), theta);
            let e0: Seq<(Fx, Fx)> = if (d0 < 0) == (circ.bits > 0) {
                seq![(pt_dist(param_spec(s, fxb(0)), q), fxb(0))]
            } else {
                Seq::empty()
            };
            let e1: Seq<(Fx, Fx)> = if (d1 > 0) == (circ.bits > 0) {
                seq![(pt_dist(param_spec(s, fxb(SCALE as int)), q), fxb(SCALE as int))]
            } else {
                Seq::empty()
            };
            e0 + e1 + arc_sweep(s, q, arc_size(circ.bits as int), arc_offset(circ.bits as int, d0))
        },
    }
}

impl Shape {
    /// Every locally nearest point of the shape to `point`, as
    /// (distance, parameter) pairs: exactly one pair for a point or a
    /// segment; for an arc, each endpoint that is a boundary extremum and
    /// one candidate per revolution the arc makes.
    pub fn nearpoints(&self, point: Point) -> (r: Vec<(Fx, Fx)>)
        ensures
            r@ == nearpoints_spec(*self, point),
            (*self matches Shape::Point(p) ==> r@.len() == 1),
            (*self matches Shape::Segment(a, b) ==> r@.len() == 1 && 0 <= r@[0].1.bits <= SCALE),
    {
        match *self {
            Shape::Point(p) => {
                let mut out: Vec<(Fx, Fx)> = Vec::new();
                out.push((p.dist(point), Fx { bits: 0 }));
                proof {
                    assert(out@ =~= nearpoints_spec(*self, point));
                }
                out
            },
            Shape::Segment(a, b) => {
                let rel: Point = point.minus(a);
                let delta: Point = b.minus(a);
                let dd: Fx = delta.dot(delta);
                let t: Fx = if dd.bits == 0 {
                    Fx { bits: 0 }
                } else {
                    let x: Fx = delta.dot(rel).over(dd);
                    if x.bits > SCALE {
                        Fx { bits: SCALE }
                    } else if x.bits < 0 {
                        Fx { bits: 0 }
                    } else {
                        x
                    }
                };
                let d: Fx = self.param(t).dist(point);
                let mut out: Vec<(Fx, Fx)> = Vec::new();
                out.push((d, t));
                proof {
                    assert(t == seg_t(a, b, point));
                    assert(out@ =~= nearpoints_spec(*self, point));
                }
                out
            },
            Shape::Arc { center, radius, start, circ } => {
                let delta: Point = point.minus(center);
                let theta: Fx = theta_of(delta.y, delta.x);
                let mut out: Vec<(Fx, Fx)> = Vec::new();
                let d0: Fx = angle_delta(start, theta);
                if (d0.bits < 0) == (circ.bits > 0) {
                    let p0: Point = self.param(Fx { bits: 0 });
                    out.push((p0.dist(point), Fx { bits: 0 }));
                }
                let d1: Fx = angle_delta(start.plus(circ), theta);
                if (d1.bits > 0) == (circ.bits > 0) {
                    let p1: Point = self.param(Fx { bits: SCALE });
                    out.push((p1.dist(point), Fx { bits: SCALE }));
                }
                let ghost head: Seq<(Fx, Fx)> = out@;
                let size: Fx = if circ.bits < 0 {
                    circ.negate()
                } else {
                    circ
                };
                let mut current: Fx = if d0.bits < 0 && circ.bits < 0 {
                    Fx { bits: -d0.bits }
                } else if d0.bits >= 0 && circ.bits < 0 {
                    Fx { bits: TAU_BITS - d0.bits }
                } else if d0.bits < 0 {
                    Fx { bits: TAU_BITS + d0.bits }
                } else {
                    d0
                };
                proof {
                    assert(size.bits == arc_size(circ.bits as int));
                    assert(current.bits == arc_offset(circ.bits as int, d0.bits as int));
                    assert(nearpoints_spec(*self, point) =~= head + arc_sweep(
                        *self,
                        point,
                        size.bits as int,
                        current.bits as int,
                    ));
                }
                while current.bits < size.bits
                    invariant
                        *self == (Shape::Arc { center, radius, start, circ }),
                        0 <= current.bits,
                        nearpoints_spec(*self, point) =~= out@ + arc_sweep(
                            *self,
                            point,
                            size.bits as int,
                            current.bits as int,
                        ),
                    decreases (if size.bits - current.bits >= 0 {
                        size.bits - current.bits
                    } else {
                        0
                    }),
                {
                    let t: Fx = current.over(size);
                    let d: Fx = self.param(t).dist(point);
                    let ghost before: Seq<(Fx, Fx)> = out@;
                    out.push((d, t));
                    let next: Fx = current.plus(Fx { bits: TAU_BITS });
                    proof {
                        assert(arc_sweep(*self, point, size.bits as int, current.bits as int)
                            =~= seq![(d, t)] + arc_sweep(
                            *self,
                            point,
                            size.bits as int,
                            next.bits as int,
                        ));
                        assert(before + (seq![(d, t)] + arc_sweep(
                            *self,
                            point,
                            size.bits as int,
                            next.bits as int,
                        )) =~= out@ + arc_sweep(*self, point, size.bits as int, next.bits as int));
                    }
                    current = next;
                }
                proof {
                    assert(arc_sweep(*self, point, size.bits as int, current.bits as int)
                        =~= Seq::<(Fx, Fx)>::empty());
                    assert(out@ + Seq::<(Fx, Fx)>::empty() =~= out@);
                }
                out
            },
        }
    }
}

/// The intersection points contributed by the first `i` nearest-point
/// candidates on `o`: one point shape at the candidate's parameter for each
/// candidate whose distance is exactly 0.
pub open spec fn zero_candidates(o: Shape, cands: Seq<(Fx, Fx)>, i: int) -> Seq<Shape>
    decreases i,
{
    if i <= 0 {
        Seq::empty()
    } else {
        zero_candidates(o, cands, i - 1) + (if cands[i - 1].0.bits == 0 {
            seq![Shape::Point(param_spec(o, cands[i - 1].1))]
        } else {
            Seq::empty()
        })
    }
}

/// The intersection set of two shapes.  Only a point against another shape is
/// populated: two points intersect exactly when their coordinates are equal,
/// and a point meets a segment or an arc at every nearest-point candidate
/// whose distance is exactly 0.  The remaining shape pairs are an
/// acknowledged incompleteness and yield the empty sequence.
pub open spec fn intersect_spec(s: Shape, o: Shape) -> Seq<Shape> {
    match s {
        Shape::Point(p) => match o {
            Shape::Point(q) => if q.x == p.x && q.y == p.y {
                seq![s]
            } else {
                Seq::empty()
            },
            _ => {
                let c = nearpoints_spec(o, p);
                zero_candidates(o, c, c.len() as int)
            },
        },
        _ => Seq::empty(),
    }
}

impl Shape {
    /// The (currently point-only) intersection set of two shapes.
    pub fn intersect(&self, other: &Shape) -> (r: Vec<Shape>)
        ensures
            r@ == intersect_spec(*self, *other),
    {
        match *self {
            Shape::Point(self_p) => {
                match *other {
                    Shape::Point(other_p) => {
                        let mut out: Vec<Shape> = Vec::new();
                        if other_p.x.bits == self_p.x.bits && other_p.y.bits == self_p.y.bits {
                            out.push(Shape::Point(self_p));
                        }
                        proof {
                            assert(out@ =~= intersect_spec(*self, *other));
                        }
                        out
                    },
                    _ => {
                        let cands: Vec<(Fx, Fx)> = other.nearpoints(self_p);
                        let mut out: Vec<Shape> = Vec::new();
                        let mut i: usize = 0;
                        while i < cands.len()
                            invariant
                                i <= cands.len(),
                                cands@ == nearpoints_spec(*other, self_p),
                                out@ == zero_candidates(*other, cands@, i as int),
                            decreases cands.len() - i,
                        {
                            let (d, t) = cands[i];
                            let ghost before: Seq<Shape> = out@;
                            if d.bits == 0 {
                                out.push(Shape::Point(other.param(t)));
                            }
                            proof {
                                assert(zero_candidates(*other, cands@, i + 1) =~= before
                                    + (if cands@[i as int].0.bits == 0 {
                                    seq![Shape::Point(param_spec(*other, cands@[i as int].1))]
                                } else {
                                    Seq::empty()
                                }));
                                assert(out@ =~= zero_candidates(*other, cands@, i + 1));
                            }
                            i = i + 1;
                        }
                        proof {
                            assert(out@ =~= intersect_spec(*self, *other));
                        }
                        out
                    },
                }
            },
            _ => {
                let out: Vec<Shape> = Vec::new();
                proof {
                    assert(out@ =~= intersect_spec(*self, *other));
                }
                out
            },
        }
    }
}

/// Two point shapes intersect in the first point exactly when their
/// coordinates are equal, and not otherwise.
pub proof fn lemma_intersect_points(p: Point, q: Point)
    ensures
        p == q ==> intersect_spec(Shape::Point(p), Shape::Point(q)) == seq![Shape::Point(p)],
        p != q ==> intersect_spec(Shape::Point(p), Shape::Point(q)) == Seq::<Shape>::empty(),
{
}

/// Each entry of a revolution sweep reports the distance from the shape's
/// point at its own parameter to the query point.
proof fn lemma_arc_sweep_dist(s: Shape, q: Point, size: int, cur: int, k: int)
    requires
        i64::MIN <= cur <= i64::MAX,
        size <= i64::MAX,
        0 <= k < arc_sweep(s, q, size, cur).len(),
    ensures
        arc_sweep(s, q, size, cur)[k].0 == pt_dist(
            param_spec(s, arc_sweep(s, q, size, cur)[k].1),
            q,
        ),
    decreases k,
{
    if cur < size && k > 0 {
        lemma_arc_sweep_dist(s, q, size, fx_add(cur, TAU_BITS as int), k - 1);
    }
}

/// Every nearest-point candidate's reported distance is the distance from
/// the shape's point at the candidate's parameter to the query point.
pub proof fn lemma_nearpoints_dist(o: Shape, q: Point, i: int)
    requires
        0 <= i < nearpoints_spec(o, q).len(),
    ensures
        nearpoints_spec(o, q)[i].0 == pt_dist(param_spec(o, nearpoints_spec(o, q)[i].1), q),
{
    match o {
        Shape::Point(p) => {},
        Shape::Segment(a, b) => {},
        Shape::Arc { center, radius, start, circ } => {
            let delta = pt_sub(q, center);
            let theta = theta_model(delta.y.bits as int, delta.x.bits as int);
            let d0 = delta_spec(start.bits as int, theta);
            let d1 = delta_spec(fx_add(start.bits as int, circ.bits as int), theta);
            let e0: Seq<(Fx, Fx)> = if (d0 < 0) == (circ.bits > 0) {
                seq![(pt_dist(param_spec(o, fxb(0)), q), fxb(0))]
            } else {
                Seq::empty()
            };
            let e1: Seq<(Fx, Fx)> = if (d1 > 0) == (circ.bits > 0) {
                seq![(pt_dist(param_spec(o, fxb(SCALE as int)), q), fxb(SCALE as int))]
            } else {
                Seq::empty()
            };
            let head = e0.len() + e1.len();
            if i >= head {
                lemma_arc_sweep_dist(
                    o,
                    q,
                    arc_size(circ.bits as int),
                    arc_offset(circ.bits as int, d0),
                    i - head,
                );
            }
        },
    }
}

/// The intersection points that the first `i` candidates contribute are all
/// the query point itself: a candidate's distance is 0 exactly when the
/// shape's point at its parameter is bit-identical to the query.
proof fn lemma_zero_candidates_exact(p: Point, o: Shape, i: int, k: int)
    requires
        0 <= i <= nearpoints_spec(o, p).len(),
        0 <= k < zero_candidates(o, nearpoints_spec(o, p), i).len(),
    ensures
        zero_candidates(o, nearpoints_spec(o, p), i)[k] == Shape::Point(p),
    decreases i,
{
    let cands = nearpoints_spec(o, p);
    if i > 0 {
        let prev = zero_candidates(o, cands, i - 1);
        if k < prev.len() {
            lemma_zero_candidates_exact(p, o, i - 1, k);
        } else {
            assert(cands[i - 1].0.bits == 0);
            lemma_nearpoints_dist(o, p, i - 1);
            assert(pt_dist(param_spec(o, cands[i - 1].1), p) == fxb(0));
            lemma_dist_zero_iff(param_spec(o, cands[i - 1].1), p);
            assert(zero_candidates(o, cands, i)[k] == Shape::Point(param_spec(o, cands[i - 1].1)));
        }
    }
}

/// Intersection is exact incidence: every shape that a point's intersection
/// query reports is the query point itself, so a nonempty result means some
/// candidate's point coincides with the query bit for bit.
pub proof fn lemma_intersect_exact(p: Point, o: Shape)
    ensures
        forall|k: int|
            0 <= k < intersect_spec(Shape::Point(p), o).len() ==> intersect_spec(
                Shape::Point(p),
                o,
            )[k] == Shape::Point(p),
{
    match o {
        Shape::Point(op) => {},
        _ => {
            let cands = nearpoints_spec(o, p);
            assert forall|k: int|
                0 <= k < intersect_spec(Shape::Point(p), o).len() implies intersect_spec(
                Shape::Point(p),
                o,
            )[k] == Shape::Point(p) by {
                lemma_zero_candidates_exact(p, o, cands.len() as int, k);
            }
        },
    }
}

/// The nearest-point parameter on a segment is always clamped into `[0, 1]`.
pub proof fn lemma_seg_t_clamped(a: Point, b: Point, q: Point)
    ensures
        0 <= seg_t(a, b, q).bits <= SCALE,
{
}

/// A point shape queried with its own location reports exactly one
/// candidate, at distance 0 and parameter 0.
pub proof fn lemma_nearpoints_point_self(p: Point)
    ensures
        nearpoints_spec(Shape::Point(p), p) == seq![(fxb(0), fxb(0))],
{
    lemma_dist_zero_iff(p, p);
    assert(nearpoints_spec(Shape::Point(p), p) =~= seq![(fxb(0), fxb(0))]);
}

/// A segment queried with its own start point reports exactly one candidate,
/// at distance 0 and parameter 0.
pub proof fn lemma_nearpoints_segment_start(a: Point, b: Point)
    ensures
        nearpoints_spec(Shape::Segment(a, b), a) == seq![(fxb(0), fxb(0))],
{
    let s = Shape::Segment(a, b);
    let delta = pt_sub(b, a);
    let rel = pt_sub(a, a);
    assert(rel == (Point { x: fxb(0), y: fxb(0) }));
    lemma_fx_mul_zero(delta.x.bits as int);
    lemma_fx_mul_zero(delta.y.bits as int);
    assert(pt_dot(delta, rel) == 0);
    let dd = pt_dot(delta, delta);
    if dd != 0 {
        lemma_fx_div_zero(dd);
    }
    assert(seg_t(a, b, a) == fxb(0));
    lemma_param_segment_ends(a, b);
    assert(param_spec(s, fxb(0)) == a);
    lemma_dist_zero_iff(a, a);
    assert(pt_dist(a, a) == fxb(0));
    assert(nearpoints_spec(s, a) =~= seq![(fxb(0), fxb(0))]);
}

/// A segment queried with its own end point reports exactly one candidate:
/// at distance 0 and parameter 1 whenever the segment is not degenerate to
/// the representation's resolution; for a degenerate segment the fallback
/// parameter 0 applies and the reported distance is the exact distance back
/// to the start point.
pub proof fn lemma_nearpoints_segment_end(a: Point, b: Point)
    ensures
        nearpoints_spec(Shape::Segment(a, b), b).len() == 1,
        pt_dot(pt_sub(b, a), pt_sub(b, a)) != 0 ==> nearpoints_spec(Shape::Segment(a, b), b)[0]
            == (fxb(0), fxb(SCALE as int)),
        pt_dot(pt_sub(b, a), pt_sub(b, a)) == 0 ==> nearpoints_spec(Shape::Segment(a, b), b)[0]
            == (pt_dist(a, b), fxb(0)),
{
    let s = Shape::Segment(a, b);
    let delta = pt_sub(b, a);
    let dd = pt_dot(delta, delta);
    lemma_fx_square_nonneg(delta.x.bits as int);
    lemma_fx_square_nonneg(delta.y.bits as int);
    lemma_param_segment_ends(a, b);
    if dd != 0 {
        // The projection of the end point is exactly the parameter 1.
        assert(pt_dot(delta, pt_sub(b, a)) == dd);
        assert(dd * SCALE >= 0 && iabs(dd * SCALE) == dd * (SCALE as int)) by (nonlinear_arith)
            requires
                dd >= 0,
                SCALE == 4294967296i64,
        ;
        assert((dd * (SCALE as int)) / dd == SCALE as int) by {
            vstd::arithmetic::div_mod::lemma_div_multiples_vanish(SCALE as int, dd);
            assert(dd * (SCALE as int) == (SCALE as int) * dd) by (nonlinear_arith);
            assert((dd * (SCALE as int)) / dd == (dd * (SCALE as int)) / iabs(dd));
        }
        assert(fx_div(dd, dd) == SCALE as int);
        assert(seg_t(a, b, b) == fxb(SCALE as int));
        lemma_dist_zero_iff(b, b);
    }
}

/// A counter-clockwise arc whose start angle is 0, queried with its own
/// start point, reports a candidate at distance 0 and parameter 0: the
/// revolution sweep's first entry.
pub proof fn lemma_nearpoints_arc_start(center: Point, radius: Fx, circ: Fx)
    requires
        circ.bits > 0,
        radius.bits >= 0,
        i64::MIN <= center.x.bits + radius.bits <= i64::MAX,
    ensures
        nearpoints_spec(
            Shape::Arc { center, radius, start: fxb(0), circ },
            pt_add(center, Point { x: radius, y: fxb(0) }),
        ).contains((fxb(0), fxb(0))),
{
    let s = Shape::Arc { center, radius, start: fxb(0), circ };
    let q = pt_add(center, Point { x: radius, y: fxb(0) });
    let delta = pt_sub(q, center);
    assert(delta == (Point { x: radius, y: fxb(0) }));
    let theta = theta_model(delta.y.bits as int, delta.x.bits as int);
    assert(theta == 0);
    lemma_delta_range(0, 0);
    assert(norm_residue(0) == 0) by {
        vstd::arithmetic::div_mod::lemma_fundamental_div_mod_converse(0, TAU_BITS as int, 0, 0);
    }
    let d0 = delta_spec(0, theta);
    assert(d0 == 0);
    assert(arc_offset(circ.bits as int, d0) == 0);
    let sweep = arc_sweep(s, q, arc_size(circ.bits as int), 0);
    lemma_fx_div_zero(circ.bits as int);
    lemma_fx_mul_zero(circ.bits as int);
    lemma_fx_mul_unit(radius.bits as int);
    lemma_fx_mul_zero(radius.bits as int);
    assert(param_spec(s, fxb(0)) == q);
    lemma_dist_zero_iff(q, q);
    assert(pt_dist(param_spec(s, fxb(0)), q) == fxb(0));
    assert(sweep[0] == (fxb(0), fxb(0)));
    let full = nearpoints_spec(s, q);
    assert(full == Seq::<(Fx, Fx)>::empty() + (if (delta_spec(fx_add(0, circ.bits as int), 0) > 0)
        == (circ.bits > 0) {
        seq![(pt_dist(param_spec(s, fxb(SCALE as int)), q), fxb(SCALE as int))]
    } else {
        Seq::<(Fx, Fx)>::empty()
    }) + sweep);
    assert(full.contains((fxb(0), fxb(0)))) by {
        let e1: Seq<(Fx, Fx)> = if (delta_spec(fx_add(0, circ.bits as int), 0) > 0) == (
        circ.bits > 0) {
            seq![(pt_dist(param_spec(s, fxb(SCALE as int)), q), fxb(SCALE as int))]
        } else {
            Seq::<(Fx, Fx)>::empty()
        };
        assert(full[e1.len() as int] == (fxb(0), fxb(0)));
    }
}

/// A segment's parametrization is exact at the ends: parameter 0 gives the
/// first endpoint and parameter 1 the second, for every pair of endpoints.
pub proof fn lemma_param_segment_ends(a: Point, b: Point)
    ensures
        param_spec(Shape::Segment(a, b), fxb(0)) == a,
        param_spec(Shape::Segment(a, b), fxb(SCALE as int)) == b,
{
    lemma_fx_mul_zero(b.x.bits as int);
    lemma_fx_mul_zero(b.y.bits as int);
    lemma_fx_mul_zero(a.x.bits as int);
    lemma_fx_mul_zero(a.y.bits as int);
    lemma_fx_mul_unit(a.x.bits as int);
    lemma_fx_mul_unit(a.y.bits as int);
    lemma_fx_mul_unit(b.x.bits as int);
    lemma_fx_mul_unit(b.y.bits as int);
}

/// An arc's parametrization is exact at the ends: parameter 0 gives the
/// circle point at the start angle, parameter 1 the circle point at the
/// start angle plus the whole signed extent (both taken as normalized
/// angles), for every arc.
pub proof fn lemma_param_arc_ends(center: Point, radius: Fx, start: Fx, circ: Fx)
    ensures
        param_spec(Shape::Arc { center, radius, start, circ }, fxb(0)) == arc_point(
            center,
            radius.bits as int,
            norm_residue(start.bits as int),
        ),
        param_spec(Shape::Arc { center, radius, start, circ }, fxb(SCALE as int)) == arc_point(
            center,
            radius.bits as int,
            norm_residue(fx_add(start.bits as int, circ.bits as int)),
        ),
{
    lemma_fx_mul_zero(circ.bits as int);
    lemma_fx_mul_unit(circ.bits as int);
}

} // verus!
