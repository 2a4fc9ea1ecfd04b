//! Curved segments and their clipping against convex polygons.
//!
//! A curve parameter `t` is fixed point: `T_ONE` stands for 1. Crossings of a cubic
//! with an edge's line are found by bisection on `t`, to a tolerance of
//! `T_TOLERANCE` (about 1e-5), at most three per segment.

use vstd::prelude::*;
use crate::clip::Edge;
use crate::clip::inside_2d;
use crate::clip::edge_cross;
use crate::clip::lerp_coord;
use crate::clip::point_ok;
use crate::clip::polygon_edge;
use crate::tile_map::Vector2I;
use crate::tile_map::coord_ok;
use crate::tile_map::floor_div;

verus! {

/// The curve parameter 1.
pub const T_ONE: u32 = 0x10_0000;

/// Bisection stops once the parameter interval is narrower than this (about 1e-5).
pub const T_TOLERANCE: u32 = 10;

/// Gap kept after a crossing before the next is searched (about 1e-4).
pub const T_EPSILON: u32 = 105;

/// What kind of curve a segment is.
#[derive(Clone, Copy, PartialEq, Eq, Structural, Debug)]
pub enum SegmentKind {
    Line,
    Quadratic,
    Cubic,
}

/// A line, quadratic or cubic from `from` to `to`; a quadratic uses `ctrl0` only.
#[derive(Clone, Copy, PartialEq, Eq, Debug)]
pub struct Segment {
    pub from: Vector2I,
    pub ctrl0: Vector2I,
    pub ctrl1: Vector2I,
    pub to: Vector2I,
    pub kind: SegmentKind,
}

/// Where a segment lies relative to an edge, judged by its end and control points.
#[derive(Clone, Copy, PartialEq, Eq, Structural, Debug)]
pub enum EdgeRelativeLocation {
    Intersecting,
    Inside,
    Outside,
}

pub open spec fn segment_ok(s: Segment) -> bool {
    point_ok(s.from) && point_ok(s.ctrl0) && point_ok(s.ctrl1) && point_ok(s.to)
}

/// Inside if every point that defines the segment is inside, outside if every one is
/// outside, intersecting otherwise.
#[verifier::opaque]
pub open spec fn trivial_location(edge: Edge, s: Segment) -> EdgeRelativeLocation {
    let a = inside_2d(edge, s.from);
    let same = a == inside_2d(edge, s.to) && (s.kind == SegmentKind::Line || a == inside_2d(edge, s.ctrl0))
        && (s.kind != SegmentKind::Cubic || a == inside_2d(edge, s.ctrl1));
    if !same {
        EdgeRelativeLocation::Intersecting
    } else if a {
        EdgeRelativeLocation::Inside
    } else {
        EdgeRelativeLocation::Outside
    }
}

/// The cubic Bezier coordinate at parameter `t / T_ONE`, rounded down.
pub open spec fn bezier(x0: int, x1: int, x2: int, x3: int, t: int) -> int {
    let u = T_ONE - t;
    floor_div(
        u * u * u * x0 + 3 * u * u * t * x1 + 3 * u * t * t * x2 + t * t * t * x3,
        T_ONE as int * T_ONE as int * T_ONE as int,
    )
}

/// The point at parameter `t` of a segment taken as a cubic.
pub open spec fn sample_at(s: Segment, t: int) -> Vector2I {
    Vector2I {
        x: bezier(s.from.x as int, s.ctrl0.x as int, s.ctrl1.x as int, s.to.x as int, t) as i32,
        y: bezier(s.from.y as int, s.ctrl0.y as int, s.ctrl1.y as int, s.to.y as int, t) as i32,
    }
}

/// Whether the point at parameter `t` of cubic `s` is inside `edge`.
pub open spec fn side_at(edge: Edge, s: Segment, t: int) -> bool {
    inside_2d(edge, sample_at(s, t))
}

/// The cubic that a quadratic is raised to; other segments as they are.
pub open spec fn as_cubic(s: Segment) -> Segment {
    if s.kind == SegmentKind::Quadratic {
        Segment {
            from: s.from,
            ctrl0: Vector2I {
                x: lerp_coord(s.from.x as int, s.ctrl0.x as int, 2, 3) as i32,
                y: lerp_coord(s.from.y as int, s.ctrl0.y as int, 2, 3) as i32,
            },
            ctrl1: Vector2I {
                x: lerp_coord(s.to.x as int, s.ctrl0.x as int, 2, 3) as i32,
                y: lerp_coord(s.to.y as int, s.ctrl0.y as int, 2, 3) as i32,
            },
            to: s.to,
            kind: SegmentKind::Cubic,
        }
    } else {
        s
    }
}

/// A line segment crosses the line of `edge`: its ends lie on different sides (one
/// may lie on it) and it is not parallel to it.
pub open spec fn line_crosses(edge: Edge, s: Segment) -> bool {
    let cp = edge_cross(edge, s.from);
    let cn = edge_cross(edge, s.to);
    cp != cn && ((cp >= 0 && cn <= 0) || (cp <= 0 && cn >= 0))
}

/// The parameter at which a crossing line meets the line of `edge`, rounded down.
pub open spec fn line_root(edge: Edge, s: Segment) -> int {
    let cp = edge_cross(edge, s.from);
    let cn = edge_cross(edge, s.to);
    let num = if cp >= 0 && cn <= 0 { cp } else { -cp };
    let den = if cp >= 0 && cn <= 0 { cp - cn } else { cn - cp };
    (num * T_ONE) / den
}

/// `t` lies within the tolerance of a change of side of cubic `s` in `[t_min, t_max]`,
/// or, where the interval was already narrower than the tolerance, inside it.
pub open spec fn brackets_crossing(edge: Edge, s: Segment, t: int, t_min: int, t_max: int) -> bool {
    exists|lo: int, hi: int| t_min <= lo <= t <= hi <= t_max && hi - lo < T_TOLERANCE && (side_at(edge, s, lo)
        != side_at(edge, s, hi) || (lo == t_min && hi == t_max))
}

/// `t` is a root found by searching cubic `s` from some start up to the end.
pub open spec fn crossing_root(edge: Edge, s: Segment, t: int) -> bool {
    exists|t_min: int| 0 <= t_min <= t && brackets_crossing(edge, s, t, t_min, T_ONE as int)
}

pub open spec fn min4(a: int, b: int, c: int, d: int) -> int {
    let ab = if a <= b { a } else { b };
    let cd = if c <= d { c } else { d };
    if ab <= cd { ab } else { cd }
}

pub open spec fn max4(a: int, b: int, c: int, d: int) -> int {
    let ab = if a >= b { a } else { b };
    let cd = if c >= d { c } else { d };
    if ab >= cd { ab } else { cd }
}

/// A Bezier coordinate is a weighted average of its control coordinates.
proof fn lemma_bezier_between(x0: int, x1: int, x2: int, x3: int, t: int)
    requires
        0 <= t <= T_ONE,
    ensures
        min4(x0, x1, x2, x3) <= bezier(x0, x1, x2, x3, t) <= max4(x0, x1, x2, x3),
{
    let u = T_ONE - t;
    let w0 = u * u * u;
    let w1 = 3 * u * u * t;
    let w2 = 3 * u * t * t;
    let w3 = t * t * t;
    let d = T_ONE as int * T_ONE as int * T_ONE as int;
    let lo = min4(x0, x1, x2, x3);
    let hi = max4(x0, x1, x2, x3);
    assert(w0 + w1 + w2 + w3 == d) by (nonlinear_arith)
        requires
            u == T_ONE - t,
            w0 == u * u * u,
            w1 == 3 * u * u * t,
            w2 == 3 * u * t * t,
            w3 == t * t * t,
            d == T_ONE as int * T_ONE as int * T_ONE as int,
    ;
    assert(w0 >= 0 && w1 >= 0 && w2 >= 0 && w3 >= 0) by (nonlinear_arith)
        requires
            0 <= t <= T_ONE,
            u == T_ONE - t,
            w0 == u * u * u,
            w1 == 3 * u * u * t,
            w2 == 3 * u * t * t,
            w3 == t * t * t,
    ;
    let s = w0 * x0 + w1 * x1 + w2 * x2 + w3 * x3;
    lemma_weighted(w0, lo, x0, hi);
    lemma_weighted(w1, lo, x1, hi);
    lemma_weighted(w2, lo, x2, hi);
    lemma_weighted(w3, lo, x3, hi);
    assert(w0 * lo + w1 * lo + w2 * lo + w3 * lo == d * lo) by (nonlinear_arith)
        requires
            w0 + w1 + w2 + w3 == d,
    ;
    assert(w0 * hi + w1 * hi + w2 * hi + w3 * hi == d * hi) by (nonlinear_arith)
        requires
            w0 + w1 + w2 + w3 == d,
    ;
    assert(d * lo <= s <= d * hi);
    assert(s == u * u * u * x0 + 3 * u * u * t * x1 + 3 * u * t * t * x2 + t * t * t * x3) by (nonlinear_arith)
        requires
            s == w0 * x0 + w1 * x1 + w2 * x2 + w3 * x3,
            w0 == u * u * u,
            w1 == 3 * u * u * t,
            w2 == 3 * u * t * t,
            w3 == t * t * t,
    ;
    vstd::arithmetic::div_mod::lemma_div_is_ordered(d * lo, s, d);
    vstd::arithmetic::div_mod::lemma_div_is_ordered(s, d * hi, d);
    vstd::arithmetic::div_mod::lemma_div_multiples_vanish(lo, d);
    vstd::arithmetic::div_mod::lemma_div_multiples_vanish(hi, d);
}

proof fn lemma_weighted(w: int, lo: int, x: int, hi: int)
    requires
        w >= 0,
        lo <= x <= hi,
    ensures
        w * lo <= w * x <= w * hi,
{
    assert(w * lo <= w * x) by (nonlinear_arith)
        requires
            w >= 0,
            lo <= x,
    ;
    assert(w * x <= w * hi) by (nonlinear_arith)
        requires
            w >= 0,
            x <= hi,
    ;
}

/// The Bezier coordinate `bezier(x0, x1, x2, x3, t)`.
fn bezier_coord(x0: i32, x1: i32, x2: i32, x3: i32, t: u32) -> (r: i32)
    requires
        coord_ok(x0 as int),
        coord_ok(x1 as int),
        coord_ok(x2 as int),
        coord_ok(x3 as int),
        t <= T_ONE,
    ensures
        r as int == bezier(x0 as int, x1 as int, x2 as int, x3 as int, t as int),
        coord_ok(r as int),
{
    let t = t as i128;
    let u = T_ONE as i128 - t;
    proof {
        assert(0 <= u * u <= 0x100_0000_0000 && 0 <= t * t <= 0x100_0000_0000) by (nonlinear_arith)
            requires
                0 <= u <= 0x10_0000,
                0 <= t <= 0x10_0000,
        ;
    }
    let uu = u * u;
    let tt = t * t;
    proof {
        lemma_bezier_between(x0 as int, x1 as int, x2 as int, x3 as int, t as int);
        assert(0 <= uu <= 0x100_0000_0000 && 0 <= tt <= 0x100_0000_0000) by (nonlinear_arith)
            requires
                0 <= u <= 0x10_0000,
                0 <= t <= 0x10_0000,
                uu == u * u,
                tt == t * t,
        ;
        assert(0 <= uu * u <= 0x1000_0000_0000_0000 && 0 <= uu * t <= 0x1000_0000_0000_0000
            && 0 <= u * tt <= 0x1000_0000_0000_0000 && 0 <= tt * t <= 0x1000_0000_0000_0000) by (nonlinear_arith)
            requires
                0 <= u <= 0x10_0000,
                0 <= t <= 0x10_0000,
                0 <= uu <= 0x100_0000_0000,
                0 <= tt <= 0x100_0000_0000,
        ;
    }
    let w0 = uu * u;
    let w1 = 3 * (uu * t);
    let w2 = 3 * (u * tt);
    let w3 = tt * t;
    proof {
        assert(-0x3000_0000_0000_0000 * 0x400_0000 <= w0 * x0 <= 0x3000_0000_0000_0000 * 0x400_0000
            && -0x3000_0000_0000_0000 * 0x400_0000 <= w1 * x1 <= 0x3000_0000_0000_0000 * 0x400_0000
            && -0x3000_0000_0000_0000 * 0x400_0000 <= w2 * x2 <= 0x3000_0000_0000_0000 * 0x400_0000
            && -0x3000_0000_0000_0000 * 0x400_0000 <= w3 * x3 <= 0x3000_0000_0000_0000 * 0x400_0000) by (nonlinear_arith)
            requires
                0 <= w0 <= 0x3000_0000_0000_0000,
                0 <= w1 <= 0x3000_0000_0000_0000,
                0 <= w2 <= 0x3000_0000_0000_0000,
                0 <= w3 <= 0x3000_0000_0000_0000,
                coord_ok(x0 as int),
                coord_ok(x1 as int),
                coord_ok(x2 as int),
                coord_ok(x3 as int),
        ;
        let ui = u as int;
        let ti = t as int;
        assert(w0 * x0 + w1 * x1 + w2 * x2 + w3 * x3 == ui * ui * ui * x0 + 3 * ui * ui * ti * x1
            + 3 * ui * ti * ti * x2 + ti * ti * ti * x3) by (nonlinear_arith)
            requires
                w0 == uu * u,
                w1 == 3 * (uu * t),
                w2 == 3 * (u * tt),
                w3 == tt * t,
                uu == u * u,
                tt == t * t,
                ui == u,
                ti == t,
        ;
    }
    let s = w0 * (x0 as i128) + w1 * (x1 as i128) + w2 * (x2 as i128) + w3 * (x3 as i128);
    let d: i128 = 0x1000_0000_0000_0000;
    let q: i128 = if s >= 0 {
        s / d
    } else {
        let n = -s;
        proof {
            crate::tile_map::lemma_neg_floor(n as int, d as int);
        }
        -((n + d - 1) / d)
    };
    q as i32
}

/// A segment all of whose points coincide: it has no length.
pub open spec fn degenerate(s: Segment) -> bool {
    s.from == s.to && s.ctrl0 == s.from && s.ctrl1 == s.from
}

impl Segment {
    /// Whether every point of the segment is the same point.
    pub fn is_degenerate(&self) -> (r: bool)
        ensures
            r == degenerate(*self),
    {
        self.from.x == self.to.x && self.from.y == self.to.y && self.ctrl0.x == self.from.x
            && self.ctrl0.y == self.from.y && self.ctrl1.x == self.from.x && self.ctrl1.y == self.from.y
    }

    /// The point at parameter `t` of a cubic segment.
    pub fn sample(&self, t: u32) -> (r: Vector2I)
        requires
            segment_ok(*self),
            t <= T_ONE,
        ensures
            r.x as int == bezier(self.from.x as int, self.ctrl0.x as int, self.ctrl1.x as int, self.to.x as int, t as int),
            r.y as int == bezier(self.from.y as int, self.ctrl0.y as int, self.ctrl1.y as int, self.to.y as int, t as int),
            r == sample_at(*self, t as int),
            point_ok(r),
    {
        Vector2I {
            x: bezier_coord(self.from.x, self.ctrl0.x, self.ctrl1.x, self.to.x, t),
            y: bezier_coord(self.from.y, self.ctrl0.y, self.ctrl1.y, self.to.y, t),
        }
    }

    /// The cubic that a quadratic is raised to: its control points lie two thirds of
    /// the way from each end to the quadratic's control point (rounded down).
    pub fn to_cubic(&self) -> (r: Segment)
        requires
            segment_ok(*self),
        ensures
            segment_ok(r),
            r.kind == SegmentKind::Cubic,
            r.from == self.from,
            r.to == self.to,
            r.ctrl0.x as int == lerp_coord(self.from.x as int, self.ctrl0.x as int, 2, 3),
            r.ctrl0.y as int == lerp_coord(self.from.y as int, self.ctrl0.y as int, 2, 3),
            r.ctrl1.x as int == lerp_coord(self.to.x as int, self.ctrl0.x as int, 2, 3),
            r.ctrl1.y as int == lerp_coord(self.to.y as int, self.ctrl0.y as int, 2, 3),
            self.kind == SegmentKind::Quadratic ==> r == as_cubic(*self),
    {
        let c0 = Vector2I {
            x: lerp_point_coord(self.from.x, self.ctrl0.x, 2, 3),
            y: lerp_point_coord(self.from.y, self.ctrl0.y, 2, 3),
        };
        let c1 = Vector2I {
            x: lerp_point_coord(self.to.x, self.ctrl0.x, 2, 3),
            y: lerp_point_coord(self.to.y, self.ctrl0.y, 2, 3),
        };
        Segment { from: self.from, ctrl0: c0, ctrl1: c1, to: self.to, kind: SegmentKind::Cubic }
    }

    /// Splits a line or cubic at parameter `t`, by repeated interpolation.
    pub fn split(&self, t: u32) -> (r: (Segment, Segment))
        requires
            segment_ok(*self),
            self.kind != SegmentKind::Quadratic,
            t <= T_ONE,
        ensures
            segment_ok(r.0),
            segment_ok(r.1),
            r.0.from == self.from,
            r.1.to == self.to,
            r.0.to == r.1.from,
            r.0.kind == self.kind,
            r.1.kind == self.kind,
    {
        let n = t as i128;
        let d = T_ONE as i128;
        if self.kind == SegmentKind::Line {
            let p = lerp_point(self.from, self.to, n, d);
            (
                Segment { from: self.from, ctrl0: self.from, ctrl1: self.from, to: p, kind: SegmentKind::Line },
                Segment { from: p, ctrl0: p, ctrl1: p, to: self.to, kind: SegmentKind::Line },
            )
        } else {
            let p01 = lerp_point(self.from, self.ctrl0, n, d);
            let p12 = lerp_point(self.ctrl0, self.ctrl1, n, d);
            let p23 = lerp_point(self.ctrl1, self.to, n, d);
            let p012 = lerp_point(p01, p12, n, d);
            let p123 = lerp_point(p12, p23, n, d);
            let p = lerp_point(p012, p123, n, d);
            (
                Segment { from: self.from, ctrl0: p01, ctrl1: p012, to: p, kind: self.kind },
                Segment { from: p, ctrl0: p123, ctrl1: p23, to: self.to, kind: self.kind },
            )
        }
    }
}

fn lerp_point_coord(a: i32, b: i32, num: i128, den: i128) -> (r: i32)
    requires
        coord_ok(a as int),
        coord_ok(b as int),
        0 <= num <= den,
        0 < den < 0x1_0000_0000_0000_0000,
    ensures
        r as int == lerp_coord(a as int, b as int, num as int, den as int),
        coord_ok(r as int),
{
    crate::clip::lerp_wide(a, b, num, den)
}

fn lerp_point(a: Vector2I, b: Vector2I, num: i128, den: i128) -> (r: Vector2I)
    requires
        point_ok(a),
        point_ok(b),
        0 <= num <= den,
        0 < den < 0x1_0000_0000_0000_0000,
    ensures
        point_ok(r),
{
    Vector2I { x: lerp_point_coord(a.x, b.x, num, den), y: lerp_point_coord(a.y, b.y, num, den) }
}

impl Edge {
    /// Where a segment lies relative to this edge, judged by its defining points.
    pub fn trivially_test_segment(&self, segment: &Segment) -> (r: EdgeRelativeLocation)
        requires
            point_ok(self.from),
            point_ok(self.to),
            segment_ok(*segment),
        ensures
            r == trivial_location(*self, *segment),
    {
        reveal(trivial_location);
        let from_inside = self.point_is_inside(segment.from);
        if from_inside != self.point_is_inside(segment.to) {
            return EdgeRelativeLocation::Intersecting;
        }
        if segment.kind != SegmentKind::Line {
            if from_inside != self.point_is_inside(segment.ctrl0) {
                return EdgeRelativeLocation::Intersecting;
            }
            if segment.kind == SegmentKind::Cubic {
                if from_inside != self.point_is_inside(segment.ctrl1) {
                    return EdgeRelativeLocation::Intersecting;
                }
            }
        }
        if from_inside {
            EdgeRelativeLocation::Inside
        } else {
            EdgeRelativeLocation::Outside
        }
    }

    /// A crossing of a cubic with this edge's line in `[t_min, t_max]`, by bisection:
    /// the interval is halved towards the side whose ends differ, until it is narrower
    /// than the tolerance; `None` where the ends and the midpoint do not bracket a
    /// single side change.
    pub fn intersect_cubic_segment(&self, segment: &Segment, t_min: u32, t_max: u32) -> (r: Option<u32>)
        requires
            point_ok(self.from),
            point_ok(self.to),
            segment_ok(*segment),
            t_min <= t_max <= T_ONE,
        ensures
            r.is_some() ==> t_min <= r.unwrap() <= t_max,
            r.is_some() ==> brackets_crossing(*self, *segment, r.unwrap() as int, t_min as int, t_max as int),
            side_at(*self, *segment, t_min as int) != side_at(*self, *segment, t_max as int) ==> r.is_some(),
    {
        let mut lo = t_min;
        let mut hi = t_max;
        let ghost differ = side_at(*self, *segment, t_min as int) != side_at(*self, *segment, t_max as int);
        loop
            invariant
                t_min <= lo <= hi <= t_max,
                t_max <= T_ONE,
                point_ok(self.from),
                point_ok(self.to),
                segment_ok(*segment),
                differ == (side_at(*self, *segment, t_min as int) != side_at(*self, *segment, t_max as int)),
                differ ==> side_at(*self, *segment, lo as int) != side_at(*self, *segment, hi as int),
                !differ ==> lo == t_min && hi == t_max,
            decreases hi - lo,
        {
            let mid = lo + (hi - lo) / 2;
            if hi - lo < T_TOLERANCE {
                proof {
                    assert(brackets_crossing(*self, *segment, mid as int, t_min as int, t_max as int)) by {
                        assert(t_min <= lo <= mid <= hi <= t_max);
                    }
                }
                return Some(mid);
            }
            let min_sign = self.point_is_inside(segment.sample(lo));
            let mid_sign = self.point_is_inside(segment.sample(mid));
            let max_sign = self.point_is_inside(segment.sample(hi));
            if min_sign == mid_sign && max_sign != mid_sign {
                lo = mid;
            } else if min_sign != mid_sign && max_sign == mid_sign {
                hi = mid;
            } else {
                return None;
            }
        }
    }

    /// The parameters, increasing, at which a segment crosses this edge's line: the
    /// one crossing of a line, or up to three crossings of a curve found by bisection.
    pub fn intersect_segment(&self, segment: &Segment) -> (r: Vec<u32>)
        requires
            point_ok(self.from),
            point_ok(self.to),
            segment_ok(*segment),
        ensures
            r@.len() <= 3,
            forall|i: int| 0 <= i < r@.len() ==> r@[i] <= T_ONE,
            forall|i: int| 0 < i < r@.len() ==> r@[i - 1] < #[trigger] r@[i],
            segment.kind == SegmentKind::Line ==> r@.len() <= 1,
            segment.kind == SegmentKind::Line ==> (r@.len() == 1 <==> line_crosses(*self, *segment)),
            segment.kind == SegmentKind::Line && r@.len() == 1 ==> r@[0] as int == line_root(*self, *segment),
            segment.kind != SegmentKind::Line ==> forall|i: int| 0 < i < r@.len() ==> r@[i - 1] + T_EPSILON
                <= #[trigger] r@[i],
            segment.kind != SegmentKind::Line ==> forall|i: int| 0 <= i < r@.len() ==> crossing_root(
                *self,
                as_cubic(*segment),
                #[trigger] r@[i] as int,
            ),
            segment.kind != SegmentKind::Line && r@.len() == 0 ==> side_at(*self, as_cubic(*segment), 0)
                == side_at(*self, as_cubic(*segment), T_ONE as int),
    {
        let mut results: Vec<u32> = Vec::new();
        if segment.kind == SegmentKind::Line {
            let ex = self.to.x as i64 - self.from.x as i64;
            let ey = self.to.y as i64 - self.from.y as i64;
            proof {
                crate::clip::lemma_cross_bounds_pub(ex as int, ey as int, segment.from.x - self.from.x, segment.from.y - self.from.y);
                crate::clip::lemma_cross_bounds_pub(ex as int, ey as int, segment.to.x - self.from.x, segment.to.y - self.from.y);
            }
            let cp = ex * (segment.from.y as i64 - self.from.y as i64) - ey * (segment.from.x as i64 - self.from.x as i64);
            let cn = ex * (segment.to.y as i64 - self.from.y as i64) - ey * (segment.to.x as i64 - self.from.x as i64);
            if cp != cn && ((cp >= 0 && cn <= 0) || (cp <= 0 && cn >= 0)) {
                let (num, den) = if cp >= 0 && cn <= 0 {
                    (cp as i128, cp as i128 - cn as i128)
                } else {
                    (-(cp as i128), cn as i128 - cp as i128)
                };
                proof {
                    assert(0 <= num * (T_ONE as int) <= den * (T_ONE as int)) by (nonlinear_arith)
                        requires
                            0 <= num <= den,
                    ;
                    vstd::arithmetic::div_mod::lemma_div_is_ordered(num * (T_ONE as int), den * (T_ONE as int), den as int);
                    vstd::arithmetic::div_mod::lemma_div_multiples_vanish(T_ONE as int, den as int);
                    assert(den * (T_ONE as int) == (den as int) * (T_ONE as int));
                    assert((den as int) * (T_ONE as int) == (T_ONE as int) * (den as int)) by (nonlinear_arith);
                    vstd::arithmetic::div_mod::lemma_div_pos_is_pos(num * (T_ONE as int), den as int);
                }
                let t = (num * (T_ONE as i128)) / den;
                results.push(t as u32);
            }
            return results;
        }
        let cubic = if segment.kind == SegmentKind::Quadratic { segment.to_cubic() } else { *segment };
        let first = self.intersect_cubic_segment(&cubic, 0, T_ONE);
        let mut prev_t: u32 = match first {
            None => {
                return results;
            },
            Some(t) => {
                results.push(t);
                proof {
                    assert(brackets_crossing(*self, cubic, results@[0] as int, 0, T_ONE as int));
                    assert(crossing_root(*self, cubic, results@[0] as int));
                }
                t + T_EPSILON
            },
        };
        while results.len() < 3
            invariant
                results@.len() <= 3,
                forall|i: int| 0 <= i < results@.len() ==> results@[i] <= T_ONE,
                forall|i: int| 0 < i < results@.len() ==> results@[i - 1] < #[trigger] results@[i],
                results@.len() > 0 ==> results@.last() < prev_t,
                prev_t <= T_ONE + T_EPSILON,
                results@.len() > 0,
                segment_ok(cubic),
                cubic == as_cubic(*segment),
                segment.kind != SegmentKind::Line,
                forall|i: int| 0 < i < results@.len() ==> results@[i - 1] + T_EPSILON <= #[trigger] results@[i],
                results@.len() > 0 ==> results@.last() + T_EPSILON == prev_t,
                forall|i: int| 0 <= i < results@.len() ==> crossing_root(*self, cubic, #[trigger] results@[i] as int),
                point_ok(self.from),
                point_ok(self.to),
            decreases 3 - results@.len(),
        {
            if prev_t >= T_ONE {
                break;
            }
            let next_t = match self.intersect_cubic_segment(&cubic, prev_t, T_ONE) {
                None => break,
                Some(next_t) => next_t,
            };
            let ghost before = results@;
            results.push(next_t);
            proof {
                assert forall|i: int| 0 <= i < results@.len() implies crossing_root(*self, cubic, #[trigger] results@[i] as int) by {
                    if i < before.len() {
                        assert(results@[i] == before[i]);
                        assert(crossing_root(*self, cubic, before[i] as int));
                    } else {
                        assert(0 <= prev_t <= results@[i]);
                        assert(brackets_crossing(*self, cubic, results@[i] as int, prev_t as int, T_ONE as int));
                    }
                }
            }
            prev_t = next_t + T_EPSILON;
        }
        results
    }
}

/// Each segment of `segments` starts where the one before it ends.
#[verifier::opaque]
pub open spec fn chained(segments: Seq<Segment>) -> bool {
    forall|i: int| 0 < i < segments.len() ==> (#[trigger] segments[i]).from == segments[i - 1].to
}

#[verifier::opaque]
pub open spec fn segments_ok(segments: Seq<Segment>) -> bool {
    forall|i: int| 0 <= i < segments.len() ==> segment_ok(#[trigger] segments[i])
}

#[verifier::spinoff_prover]
#[verifier::rlimit(40)]
/// Every segment of `segments` lies at `loc` relative to `edge`.
pub open spec fn all_located(edge: Edge, segments: Seq<Segment>, loc: EdgeRelativeLocation) -> bool {
    forall|i: int| 0 <= i < segments.len() ==> trivial_location(edge, #[trigger] segments[i]) == loc
}

/// Appends `segment`, first joining it with a line to the end of the contour where
/// the two do not meet.
fn push_segment(contour: &mut Vec<Segment>, segment: Segment)
    requires
        segment_ok(segment),
        segments_ok(old(contour)@),
        chained(old(contour)@),
    ensures
        segments_ok(final(contour)@),
        chained(final(contour)@),
        final(contour)@.last() == segment,
        final(contour)@.len() == old(contour)@.len() + 1 || final(contour)@.len() == old(contour)@.len() + 2,
        forall|i: int| 0 <= i < old(contour)@.len() ==> #[trigger] final(contour)@[i] == old(contour)@[i],
        old(contour)@.len() == 0 || old(contour)@.last().to == segment.from ==> final(contour)@ == old(contour)@.push(
            segment,
        ),
{
    let n = contour.len();
    let ghost c0 = contour@;
    if n > 0 {
        let last = contour[n - 1].to;
        if last.x != segment.from.x || last.y != segment.from.y {
            proof {
                assert(segment_ok(c0[n - 1])) by {
                    reveal(segments_ok);
                }
            }
            let join = Segment { from: last, ctrl0: last, ctrl1: last, to: segment.from, kind: SegmentKind::Line };
            contour.push(join);
        }
    }
    contour.push(segment);
    proof {
        let c1 = contour@;
        assert forall|i: int| 0 <= i < c0.len() implies #[trigger] c1[i] == c0[i] by {}
        assert(segments_ok(c1)) by {
            reveal(segments_ok);
            assert forall|i: int| 0 <= i < c1.len() implies segment_ok(#[trigger] c1[i]) by {
                if i < c0.len() {
                    assert(c1[i] == c0[i]);
                }
            }
        }
        assert(chained(c1)) by {
            reveal(chained);
            assert forall|i: int| 0 < i < c1.len() implies (#[trigger] c1[i]).from == c1[i - 1].to by {
                if i < c0.len() {
                    assert(c1[i] == c0[i] && c1[i - 1] == c0[i - 1]);
                }
            }
        }
        if n == 0 || c0.last().to == segment.from {
            assert(c1 =~= c0.push(segment));
        }
    }
}

/// Clips a contour of segments against a convex polygon, one edge at a time.
pub struct SegmentClipper {
    pub clip_polygon: Vec<Vector2I>,
    pub contour: Vec<Segment>,
}

impl SegmentClipper {
    pub fn new(clip_polygon: Vec<Vector2I>, contour: Vec<Segment>) -> (r: SegmentClipper)
        ensures
            r.clip_polygon@ == clip_polygon@,
            r.contour@ == contour@,
    {
        SegmentClipper { clip_polygon, contour }
    }

    /// The contour clipped against the polygon: segments inside an edge are kept,
    /// those outside dropped, and those that cross it split at the crossings, with
    /// lines joining the kept parts; parts that shrink to a point are dropped. Nothing remains against an empty polygon.
    pub fn clip(self) -> (r: Vec<Segment>)
        requires
            crate::clip::points_ok(self.clip_polygon@),
            segments_ok(self.contour@),
        ensures
            segments_ok(r@),
            self.clip_polygon@.len() > 0 ==> chained(r@),
            self.clip_polygon@.len() == 0 ==> r@.len() == 0,
            self.clip_polygon@.len() > 0 && chained(self.contour@) && (forall|k: int| 0 <= k < self.clip_polygon@.len()
                ==> all_located(#[trigger] polygon_edge(self.clip_polygon@, k), self.contour@, EdgeRelativeLocation::Inside))
                ==> r@ == self.contour@,
            self.clip_polygon@.len() > 0 && all_located(polygon_edge(self.clip_polygon@, 0), self.contour@, EdgeRelativeLocation::Outside)
                ==> r@.len() == 0,
    {
        let mut this = self;
        let ghost original = this.contour@;
        let ghost poly = this.clip_polygon@;
        let ghost all_in = chained(original) && (forall|k: int| 0 <= k < poly.len()
            ==> all_located(#[trigger] polygon_edge(poly, k), original, EdgeRelativeLocation::Inside));
        let ghost out0 = poly.len() > 0 && all_located(polygon_edge(poly, 0), original, EdgeRelativeLocation::Outside);
        let n = this.clip_polygon.len();
        if n == 0 {
            let empty: Vec<Segment> = Vec::new();
            proof {
                reveal(segments_ok);
            }
            return empty;
        }
        let mut prev = this.clip_polygon[n - 1];
        let mut k: usize = 0;
        while k < n
            invariant
                n == this.clip_polygon@.len(),
                n > 0,
                k <= n,
                crate::clip::points_ok(this.clip_polygon@),
                point_ok(prev),
                segments_ok(this.contour@),
                k > 0 ==> chained(this.contour@),
                poly == this.clip_polygon@,
                prev == crate::clip::prev_of_2d(poly, k as int),
                all_in == (chained(original) && (forall|k2: int| 0 <= k2 < poly.len()
                    ==> all_located(#[trigger] polygon_edge(poly, k2), original, EdgeRelativeLocation::Inside))),
                all_in ==> this.contour@ == original,
                out0 == (poly.len() > 0 && all_located(polygon_edge(poly, 0), original, EdgeRelativeLocation::Outside)),
                k == 0 ==> this.contour@ == original,
                out0 && k > 0 ==> this.contour@.len() == 0,
            decreases n - k,
        {
            let next = this.clip_polygon[k];
            proof {
                assert(point_ok(this.clip_polygon@[k as int]));
                assert(Edge { from: prev, to: next } == polygon_edge(poly, k as int));
                if all_in {
                    assert(all_located(polygon_edge(poly, k as int), original, EdgeRelativeLocation::Inside));
                }
            }
            this.clip_against(Edge { from: prev, to: next });
            prev = next;
            k = k + 1;
        }
        this.contour
    }

    #[verifier::spinoff_prover]
    #[verifier::rlimit(100)]
    fn clip_against(&mut self, edge: Edge)
        requires
            point_ok(edge.from),
            point_ok(edge.to),
            segments_ok(old(self).contour@),
        ensures
            segments_ok(final(self).contour@),
            chained(final(self).contour@),
            final(self).clip_polygon == old(self).clip_polygon,
            all_located(edge, old(self).contour@, EdgeRelativeLocation::Outside) ==> final(self).contour@.len() == 0,
            all_located(edge, old(self).contour@, EdgeRelativeLocation::Inside) && chained(old(self).contour@)
                ==> final(self).contour@ == old(self).contour@,
    {
        let mut input: Vec<Segment> = Vec::new();
        std::mem::swap(&mut input, &mut self.contour);
        proof {
            reveal(segments_ok);
            reveal(chained);
        }
        let n = input.len();
        let mut i: usize = 0;
        proof {
            assert(input@.take(0) =~= Seq::<Segment>::empty());
        }
        while i < n
            invariant
                n == input@.len(),
                i <= n,
                point_ok(edge.from),
                point_ok(edge.to),
                segments_ok(input@),
                segments_ok(self.contour@),
                chained(self.contour@),
                self.clip_polygon == old(self).clip_polygon,
                input@ == old(self).contour@,
                all_located(edge, input@, EdgeRelativeLocation::Outside) ==> self.contour@.len() == 0,
                all_located(edge, input@, EdgeRelativeLocation::Inside) && chained(input@) ==> self.contour@
                    == input@.take(i as int),
            decreases n - i,
        {
            let segment = input[i];
            let ghost before = self.contour@;
            proof {
                reveal(segments_ok);
                assert(segment_ok(input@[i as int]));
                if all_located(edge, input@, EdgeRelativeLocation::Inside) && chained(input@) && i > 0 {
                    reveal(chained);
                    assert(input@[i as int].from == input@[i - 1].to);
                    assert(before.last() == input@[i - 1]);
                }
            }
            match edge.trivially_test_segment(&segment) {
                EdgeRelativeLocation::Outside => {},
                EdgeRelativeLocation::Inside => {
                    push_segment(&mut self.contour, segment);
                },
                EdgeRelativeLocation::Intersecting => {
                    let mut starts_inside = edge.point_is_inside(segment.from);
                    let ts = edge.intersect_segment(&segment);
                    let mut rest = if segment.kind == SegmentKind::Quadratic { segment.to_cubic() } else { segment };
                    let mut last_t: u32 = 0;
                    let mut j: usize = 0;
                    while j < ts.len()
                        invariant
                            j <= ts@.len(),
                            ts@.len() <= 3,
                            forall|m: int| 0 <= m < ts@.len() ==> ts@[m] <= T_ONE,
                            last_t <= T_ONE,
                            segment_ok(rest),
                            rest.kind != SegmentKind::Quadratic,
                            segments_ok(self.contour@),
                            chained(self.contour@),
                            self.clip_polygon == old(self).clip_polygon,
                        decreases ts@.len() - j,
                    {
                        let t = ts[j];
                        let local: u32 = if t > last_t && last_t < T_ONE {
                            let num = (t - last_t) as u64 * (T_ONE as u64);
                            let den = (T_ONE - last_t) as u64;
                            proof {
                                assert((t - last_t) * (T_ONE as int) <= (T_ONE - last_t) * (T_ONE as int)) by (nonlinear_arith)
                                    requires
                                        t <= T_ONE,
                                        last_t < t,
                                ;
                                vstd::arithmetic::div_mod::lemma_div_is_ordered(num as int, (den * (T_ONE as int)) as int, den as int);
                                vstd::arithmetic::div_mod::lemma_div_multiples_vanish(T_ONE as int, den as int);
                                assert((den as int) * (T_ONE as int) == (T_ONE as int) * (den as int)) by (nonlinear_arith);
                            }
                            (num / den) as u32
                        } else {
                            0
                        };
                        let (before, after) = rest.split(local);
                        if starts_inside && !before.is_degenerate() {
                            push_segment(&mut self.contour, before);
                        }
                        starts_inside = !starts_inside;
                        last_t = t;
                        rest = after;
                        j = j + 1;
                    }
                    if starts_inside && !rest.is_degenerate() {
                        push_segment(&mut self.contour, rest);
                    }
                },
            }
            proof {
                if all_located(edge, input@, EdgeRelativeLocation::Inside) && chained(input@) {
                    assert(input@.take(i + 1) =~= input@.take(i as int).push(input@[i as int]));
                }
            }
            i = i + 1;
        }
        proof {
            assert(input@.take(n as int) =~= input@);
        }
    }
}

} // verus!
