//! Clipping of polygons and contours against clip regions.
//!
//! All coordinates are fixed point. Intersection points are rounded so that each
//! coordinate stays between those of the two points it interpolates, and the
//! coordinate on the clip boundary's axis is set exactly on the boundary; hence
//! every output point lies inside the clip region, with no tolerance.

use vstd::prelude::*;
use crate::tile_map::floor_div_i64;
use crate::tile_map::floor_div;
use crate::tile_map::Vector2I;
use crate::tile_map::FixedRect;
use crate::tile_map::coord_ok;
use crate::scene::Contour;

verus! {

/// The value 1 in clip space: clip-space coordinates carry sixteen fractional bits.
pub const CLIP_ONE: i32 = 0x1_0000;

/// Bound on clip-space coordinates that keeps interpolation within 64 bits.
pub const CLIP_COORD_LIMIT: i32 = 0x3fff_ffff;

/// A point in clip space.
#[derive(Clone, Copy, PartialEq, Eq, Debug)]
pub struct Point3D {
    pub x: i32,
    pub y: i32,
    pub z: i32,
}

impl Point3D {
    pub open spec fn wf(&self) -> bool {
        &&& -CLIP_COORD_LIMIT <= self.x <= CLIP_COORD_LIMIT
        &&& -CLIP_COORD_LIMIT <= self.y <= CLIP_COORD_LIMIT
        &&& -CLIP_COORD_LIMIT <= self.z <= CLIP_COORD_LIMIT
    }

    /// Inside the canonical clip volume: every coordinate within [-1, 1].
    pub open spec fn in_clip_volume(&self) -> bool {
        &&& -CLIP_ONE <= self.x <= CLIP_ONE
        &&& -CLIP_ONE <= self.y <= CLIP_ONE
        &&& -CLIP_ONE <= self.z <= CLIP_ONE
    }
}

/// One of the six planes that bound the canonical clip volume.
#[derive(Clone, Copy, PartialEq, Eq, Debug)]
pub enum Edge3D {
    Left,
    Right,
    Bottom,
    Top,
    Near,
    Far,
}

/// The coordinate of `p` on the axis that `edge` bounds.
pub open spec fn axis_value(edge: Edge3D, p: Point3D) -> int {
    match edge {
        Edge3D::Left | Edge3D::Right => p.x as int,
        Edge3D::Bottom | Edge3D::Top => p.y as int,
        Edge3D::Near | Edge3D::Far => p.z as int,
    }
}

/// The position of the plane on its axis: -1 or 1.
pub open spec fn plane_value(edge: Edge3D) -> int {
    match edge {
        Edge3D::Left | Edge3D::Bottom | Edge3D::Near => -CLIP_ONE,
        Edge3D::Right | Edge3D::Top | Edge3D::Far => CLIP_ONE as int,
    }
}

/// Whether `p` lies on the inner side of `edge`.
pub open spec fn inside(edge: Edge3D, p: Point3D) -> bool {
    match edge {
        Edge3D::Left | Edge3D::Bottom | Edge3D::Near => axis_value(edge, p) >= -CLIP_ONE,
        Edge3D::Right | Edge3D::Top | Edge3D::Far => axis_value(edge, p) <= CLIP_ONE,
    }
}

/// `a + floor((b - a) * num / den)`: the point at `num / den` of the way from `a` to `b`.
pub open spec fn lerp_coord(a: int, b: int, num: int, den: int) -> int {
    a + floor_div((b - a) * num, den)
}

/// Where the segment from `prev` to `next` meets the plane of `edge`.
pub open spec fn intersection(edge: Edge3D, prev: Point3D, next: Point3D) -> Point3D {
    let x0 = axis_value(edge, prev);
    let x1 = axis_value(edge, next);
    let num = if x1 > x0 { plane_value(edge) - x0 } else { x0 - plane_value(edge) };
    let den = if x1 > x0 { x1 - x0 } else { x0 - x1 };
    let px = lerp_coord(prev.x as int, next.x as int, num, den);
    let py = lerp_coord(prev.y as int, next.y as int, num, den);
    let pz = lerp_coord(prev.z as int, next.z as int, num, den);
    match edge {
        Edge3D::Left | Edge3D::Right => Point3D { x: plane_value(edge) as i32, y: py as i32, z: pz as i32 },
        Edge3D::Bottom | Edge3D::Top => Point3D { x: px as i32, y: plane_value(edge) as i32, z: pz as i32 },
        Edge3D::Near | Edge3D::Far => Point3D { x: px as i32, y: py as i32, z: plane_value(edge) as i32 },
    }
}

/// The output of one step of clipping against `edge`, from `prev` to `next`.
pub open spec fn edge_step(edge: Edge3D, prev: Point3D, next: Point3D) -> Seq<Point3D> {
    if inside(edge, next) {
        if !inside(edge, prev) {
            seq![intersection(edge, prev, next), next]
        } else {
            seq![next]
        }
    } else if inside(edge, prev) {
        seq![intersection(edge, prev, next)]
    } else {
        Seq::empty()
    }
}

/// The point before the `i`-th of a closed polygon.
pub open spec fn prev_of(s: Seq<Point3D>, i: int) -> Point3D {
    if i == 0 { s.last() } else { s[i - 1] }
}

/// The output of clipping the first `k` points of polygon `s` against `edge`.
pub open spec fn clip_edge_prefix(edge: Edge3D, s: Seq<Point3D>, k: int) -> Seq<Point3D>
    decreases k,
{
    if k <= 0 {
        Seq::empty()
    } else {
        clip_edge_prefix(edge, s, k - 1) + edge_step(edge, prev_of(s, k - 1), s[k - 1])
    }
}

/// Polygon `s` clipped against one plane.
pub open spec fn clip_edge(edge: Edge3D, s: Seq<Point3D>) -> Seq<Point3D> {
    clip_edge_prefix(edge, s, s.len() as int)
}

/// Polygon `s` clipped against the six planes of the canonical clip volume.
pub open spec fn clip_polygon_3d(s: Seq<Point3D>) -> Seq<Point3D> {
    clip_edge(Edge3D::Far, clip_edge(Edge3D::Near, clip_edge(Edge3D::Top,
        clip_edge(Edge3D::Bottom, clip_edge(Edge3D::Right, clip_edge(Edge3D::Left, s))))))
}

pub open spec fn all_wf(s: Seq<Point3D>) -> bool {
    forall|i: int| 0 <= i < s.len() ==> (#[trigger] s[i]).wf()
}

impl Edge3D {
    /// Whether `point` lies on the inner side of this plane.
    pub fn point_is_inside(self, point: Point3D) -> (r: bool)
        ensures
            r == inside(self, point),
    {
        match self {
            Edge3D::Left => point.x >= -CLIP_ONE,
            Edge3D::Right => point.x <= CLIP_ONE,
            Edge3D::Bottom => point.y >= -CLIP_ONE,
            Edge3D::Top => point.y <= CLIP_ONE,
            Edge3D::Near => point.z >= -CLIP_ONE,
            Edge3D::Far => point.z <= CLIP_ONE,
        }
    }

    /// Where the segment from `prev` to `next`, which crosses this plane, meets it.
    pub fn line_intersection(self, prev: Point3D, next: Point3D) -> (r: Point3D)
        requires
            prev.wf(),
            next.wf(),
            inside(self, prev) != inside(self, next),
        ensures
            r == intersection(self, prev, next),
            r.wf(),
            inside(self, r),
            forall|e: Edge3D| inside(e, prev) && inside(e, next) ==> inside(e, r),
    {
        let (x0, x1) = match self {
            Edge3D::Left | Edge3D::Right => (prev.x, next.x),
            Edge3D::Bottom | Edge3D::Top => (prev.y, next.y),
            Edge3D::Near | Edge3D::Far => (prev.z, next.z),
        };
        let x: i32 = match self {
            Edge3D::Left | Edge3D::Bottom | Edge3D::Near => -CLIP_ONE,
            Edge3D::Right | Edge3D::Top | Edge3D::Far => CLIP_ONE,
        };
        let (num, den) = if x1 > x0 {
            (x as i64 - x0 as i64, x1 as i64 - x0 as i64)
        } else {
            (x0 as i64 - x as i64, x0 as i64 - x1 as i64)
        };
        proof {
            assert(0 <= num <= den);
            assert(den > 0);
        }
        let px = lerp_i32(prev.x, next.x, num, den);
        let py = lerp_i32(prev.y, next.y, num, den);
        let pz = lerp_i32(prev.z, next.z, num, den);
        match self {
            Edge3D::Left | Edge3D::Right => Point3D { x, y: py, z: pz },
            Edge3D::Bottom | Edge3D::Top => Point3D { x: px, y: x, z: pz },
            Edge3D::Near | Edge3D::Far => Point3D { x: px, y: py, z: x },
        }
    }
}

/// The fixed-point interpolation `lerp_coord`, which stays between its ends.
pub(crate) fn lerp_i32(a: i32, b: i32, num: i64, den: i64) -> (r: i32)
    requires
        -CLIP_COORD_LIMIT <= a <= CLIP_COORD_LIMIT,
        -CLIP_COORD_LIMIT <= b <= CLIP_COORD_LIMIT,
        0 <= num <= den,
        0 < den <= 2 * CLIP_COORD_LIMIT,
    ensures
        r as int == lerp_coord(a as int, b as int, num as int, den as int),
        (a <= r <= b) || (b <= r <= a),
{
    let d: i64 = b as i64 - a as i64;
    proof {
        lemma_product_bound(d as int, num as int);
        lemma_lerp_between(d as int, num as int, den as int);
    }
    let q = floor_div_i64(d * num, den);
    (a as i64 + q) as i32
}

proof fn lemma_product_bound(d: int, n: int)
    requires
        -2 * CLIP_COORD_LIMIT <= d <= 2 * CLIP_COORD_LIMIT,
        0 <= n <= 2 * CLIP_COORD_LIMIT,
    ensures
        i64::MIN / 2 < d * n < i64::MAX / 2,
{
    assert(-4 * CLIP_COORD_LIMIT * CLIP_COORD_LIMIT <= d * n <= 4 * CLIP_COORD_LIMIT * CLIP_COORD_LIMIT) by (nonlinear_arith)
        requires
            -2 * CLIP_COORD_LIMIT <= d <= 2 * CLIP_COORD_LIMIT,
            0 <= n <= 2 * CLIP_COORD_LIMIT,
    ;
}

/// `floor(d * num / den)` lies between 0 and `d` when `0 <= num <= den`.
proof fn lemma_lerp_between(d: int, num: int, den: int)
    requires
        0 <= num <= den,
        den > 0,
    ensures
        d >= 0 ==> 0 <= floor_div(d * num, den) <= d,
        d < 0 ==> d <= floor_div(d * num, den) <= 0,
{
    if d >= 0 {
        assert(0 <= d * num <= d * den) by (nonlinear_arith)
            requires
                d >= 0,
                0 <= num <= den,
        ;
        vstd::arithmetic::div_mod::lemma_div_is_ordered(0, d * num, den);
        vstd::arithmetic::div_mod::lemma_div_is_ordered(d * num, d * den, den);
        vstd::arithmetic::div_mod::lemma_div_by_multiple(d, den);
    } else {
        assert(d * den <= d * num <= 0) by (nonlinear_arith)
            requires
                d < 0,
                0 <= num <= den,
        ;
        vstd::arithmetic::div_mod::lemma_div_is_ordered(d * num, 0, den);
        vstd::arithmetic::div_mod::lemma_div_is_ordered(d * den, d * num, den);
        vstd::arithmetic::div_mod::lemma_div_multiples_vanish(d, den);
        assert(d * den == den * d) by (nonlinear_arith);
    }
}

/// Clips a polygon against the canonical clip volume, one plane at a time.
pub struct PolygonClipper3D {
    pub subject: Vec<Point3D>,
}

impl PolygonClipper3D {
    pub fn new(subject: Vec<Point3D>) -> (r: PolygonClipper3D)
        ensures
            r.subject@ == subject@,
    {
        PolygonClipper3D { subject }
    }

    /// The polygon clipped to the canonical clip volume.
    pub fn clip(self) -> (r: Vec<Point3D>)
        requires
            all_wf(self.subject@),
        ensures
            r@ == clip_polygon_3d(self.subject@),
            forall|i: int| 0 <= i < r@.len() ==> (#[trigger] r@[i]).in_clip_volume(),
    {
        let mut this = self;
        let ghost s0 = this.subject@;
        this.clip_against(Edge3D::Left);
        this.clip_against(Edge3D::Right);
        this.clip_against(Edge3D::Bottom);
        this.clip_against(Edge3D::Top);
        this.clip_against(Edge3D::Near);
        this.clip_against(Edge3D::Far);
        proof {
            lemma_clip_polygon_in_volume(s0);
        }
        this.subject
    }

    fn clip_against(&mut self, edge: Edge3D)
        requires
            all_wf(old(self).subject@),
        ensures
            final(self).subject@ == clip_edge(edge, old(self).subject@),
            all_wf(final(self).subject@),
    {
        let mut input: Vec<Point3D> = Vec::new();
        std::mem::swap(&mut input, &mut self.subject);
        let n = input.len();
        if n == 0 {
            return;
        }
        let mut prev = input[n - 1];
        let mut i: usize = 0;
        while i < n
            invariant
                n == input@.len(),
                n > 0,
                0 <= i <= n,
                all_wf(input@),
                prev == prev_of(input@, i as int),
                self.subject@ == clip_edge_prefix(edge, input@, i as int),
                all_wf(self.subject@),
            decreases n - i,
        {
            let next = input[i];
            let ghost before = self.subject@;
            if edge.point_is_inside(next) {
                if !edge.point_is_inside(prev) {
                    let p = edge.line_intersection(prev, next);
                    self.subject.push(p);
                }
                self.subject.push(next);
            } else if edge.point_is_inside(prev) {
                let p = edge.line_intersection(prev, next);
                self.subject.push(p);
            }
            proof {
                assert(self.subject@ =~= before + edge_step(edge, prev, next));
            }
            prev = next;
            i = i + 1;
        }
    }
}

/// Every point that clipping `s` against `edge` outputs lies inside `edge`, and
/// inside every plane that all points of `s` lie inside.
pub proof fn lemma_clip_edge_inside(edge: Edge3D, s: Seq<Point3D>, k: int, e: Edge3D)
    requires
        all_wf(s),
        0 <= k <= s.len(),
    ensures
        forall|j: int| 0 <= j < clip_edge_prefix(edge, s, k).len() ==> inside(
            edge,
            #[trigger] clip_edge_prefix(edge, s, k)[j],
        ),
        (forall|i: int| 0 <= i < s.len() ==> inside(e, #[trigger] s[i])) ==> (forall|j: int|
            0 <= j < clip_edge_prefix(edge, s, k).len() ==> inside(
                e,
                #[trigger] clip_edge_prefix(edge, s, k)[j],
            )),
        all_wf(clip_edge_prefix(edge, s, k)),
    decreases k,
{
    if k > 0 {
        lemma_clip_edge_inside(edge, s, k - 1, e);
        let prev = prev_of(s, k - 1);
        let next = s[k - 1];
        assert(prev.wf());
        assert(next.wf());
        let step = edge_step(edge, prev, next);
        if inside(edge, prev) != inside(edge, next) {
            lemma_intersection_inside(edge, prev, next);
        }
        let a = clip_edge_prefix(edge, s, k - 1);
        assert(clip_edge_prefix(edge, s, k) == a + step);
        assert forall|j: int| 0 <= j < (a + step).len() implies (#[trigger] (a + step)[j]).wf() by {
            if j >= a.len() {
                assert((a + step)[j] == step[j - a.len()]);
            }
        }
        if forall|i: int| 0 <= i < s.len() ==> inside(e, #[trigger] s[i]) {
            assert(inside(e, prev));
            assert(inside(e, next));
        }
    }
}

/// The intersection point lies on the crossed plane, inside every plane that both
/// ends lie inside, and within the coordinate bounds.
pub proof fn lemma_intersection_inside(edge: Edge3D, prev: Point3D, next: Point3D)
    requires
        prev.wf(),
        next.wf(),
        inside(edge, prev) != inside(edge, next),
    ensures
        intersection(edge, prev, next).wf(),
        inside(edge, intersection(edge, prev, next)),
        forall|e: Edge3D| inside(e, prev) && inside(e, next) ==> inside(
            e,
            #[trigger] intersection(edge, prev, next),
        ),
{
    let x0 = axis_value(edge, prev);
    let x1 = axis_value(edge, next);
    let num = if x1 > x0 { plane_value(edge) - x0 } else { x0 - plane_value(edge) };
    let den = if x1 > x0 { x1 - x0 } else { x0 - x1 };
    assert(0 <= num <= den && den > 0);
    lemma_lerp_between(next.x - prev.x, num, den);
    lemma_lerp_between(next.y - prev.y, num, den);
    lemma_lerp_between(next.z - prev.z, num, den);
}

/// Every point of a polygon clipped to the canonical clip volume lies inside it.
pub proof fn lemma_clip_polygon_in_volume(s: Seq<Point3D>)
    requires
        all_wf(s),
    ensures
        all_wf(clip_polygon_3d(s)),
        forall|i: int| 0 <= i < clip_polygon_3d(s).len() ==> (#[trigger] clip_polygon_3d(s)[i]).in_clip_volume(),
{
    let s1 = clip_edge(Edge3D::Left, s);
    let s2 = clip_edge(Edge3D::Right, s1);
    let s3 = clip_edge(Edge3D::Bottom, s2);
    let s4 = clip_edge(Edge3D::Top, s3);
    let s5 = clip_edge(Edge3D::Near, s4);
    let s6 = clip_edge(Edge3D::Far, s5);
    lemma_clip_edge_inside(Edge3D::Left, s, s.len() as int, Edge3D::Left);
    lemma_carry(Edge3D::Right, s1, Edge3D::Left);
    lemma_carry(Edge3D::Bottom, s2, Edge3D::Left);
    lemma_carry(Edge3D::Bottom, s2, Edge3D::Right);
    lemma_carry(Edge3D::Top, s3, Edge3D::Left);
    lemma_carry(Edge3D::Top, s3, Edge3D::Right);
    lemma_carry(Edge3D::Top, s3, Edge3D::Bottom);
    lemma_carry(Edge3D::Near, s4, Edge3D::Left);
    lemma_carry(Edge3D::Near, s4, Edge3D::Right);
    lemma_carry(Edge3D::Near, s4, Edge3D::Bottom);
    lemma_carry(Edge3D::Near, s4, Edge3D::Top);
    lemma_carry(Edge3D::Far, s5, Edge3D::Left);
    lemma_carry(Edge3D::Far, s5, Edge3D::Right);
    lemma_carry(Edge3D::Far, s5, Edge3D::Bottom);
    lemma_carry(Edge3D::Far, s5, Edge3D::Top);
    lemma_carry(Edge3D::Far, s5, Edge3D::Near);
    lemma_carry(Edge3D::Far, s5, Edge3D::Far);
    assert forall|i: int| 0 <= i < s6.len() implies (#[trigger] s6[i]).in_clip_volume() by {
        assert(inside(Edge3D::Left, s6[i]));
        assert(inside(Edge3D::Right, s6[i]));
        assert(inside(Edge3D::Bottom, s6[i]));
        assert(inside(Edge3D::Top, s6[i]));
        assert(inside(Edge3D::Near, s6[i]));
        assert(inside(Edge3D::Far, s6[i]));
    }
}

/// Clipping against `edge` keeps every point inside `e` where all input points were,
/// and puts every point inside `edge`.
proof fn lemma_carry(edge: Edge3D, s: Seq<Point3D>, e: Edge3D)
    requires
        all_wf(s),
    ensures
        all_wf(clip_edge(edge, s)),
        forall|j: int| 0 <= j < clip_edge(edge, s).len() ==> inside(edge, #[trigger] clip_edge(edge, s)[j]),
        (forall|i: int| 0 <= i < s.len() ==> inside(e, #[trigger] s[i])) ==> (forall|j: int|
            0 <= j < clip_edge(edge, s).len() ==> inside(e, #[trigger] clip_edge(edge, s)[j])),
{
    lemma_clip_edge_inside(edge, s, s.len() as int, e);
}

/// Clipping against a plane that every point already lies inside changes nothing.
pub proof fn lemma_clip_edge_keeps_inside_polygon(edge: Edge3D, s: Seq<Point3D>, k: int)
    requires
        0 <= k <= s.len(),
        forall|i: int| 0 <= i < s.len() ==> inside(edge, #[trigger] s[i]),
    ensures
        clip_edge_prefix(edge, s, k) == s.take(k),
    decreases k,
{
    if k > 0 {
        lemma_clip_edge_keeps_inside_polygon(edge, s, k - 1);
        assert(inside(edge, prev_of(s, k - 1)));
        assert(s.take(k) =~= s.take(k - 1) + seq![s[k - 1]]);
    }
}

/// Clipping to the canonical clip volume is idempotent: clipping a clipped polygon
/// again returns it unchanged.
pub proof fn lemma_clip_polygon_3d_idempotent(s: Seq<Point3D>)
    requires
        all_wf(s),
    ensures
        clip_polygon_3d(clip_polygon_3d(s)) == clip_polygon_3d(s),
{
    let c = clip_polygon_3d(s);
    lemma_clip_polygon_in_volume(s);
    assert forall|e: Edge3D, i: int| 0 <= i < c.len() implies #[trigger] inside(e, c[i]) by {
        assert(c[i].in_clip_volume());
    }
    lemma_clip_edge_keeps_inside_polygon(Edge3D::Left, c, c.len() as int);
    assert(c.take(c.len() as int) =~= c);
    lemma_clip_edge_keeps_inside_polygon(Edge3D::Right, c, c.len() as int);
    lemma_clip_edge_keeps_inside_polygon(Edge3D::Bottom, c, c.len() as int);
    lemma_clip_edge_keeps_inside_polygon(Edge3D::Top, c, c.len() as int);
    lemma_clip_edge_keeps_inside_polygon(Edge3D::Near, c, c.len() as int);
    lemma_clip_edge_keeps_inside_polygon(Edge3D::Far, c, c.len() as int);
}

/// Every point of `s` lies outside plane `e`.
pub open spec fn all_outside(e: Edge3D, s: Seq<Point3D>) -> bool {
    forall|i: int| 0 <= i < s.len() ==> !inside(e, #[trigger] s[i])
}

/// Two planes bound the same axis.
pub open spec fn same_axis(e: Edge3D, f: Edge3D) -> bool {
    match (e, f) {
        (Edge3D::Left, Edge3D::Right) | (Edge3D::Right, Edge3D::Left) | (Edge3D::Bottom, Edge3D::Top)
        | (Edge3D::Top, Edge3D::Bottom) | (Edge3D::Near, Edge3D::Far) | (Edge3D::Far, Edge3D::Near) => true,
        _ => e == f,
    }
}

/// Clipping against any plane keeps every point outside plane `e` where all were.
proof fn lemma_clip_keeps_outside(f: Edge3D, s: Seq<Point3D>, k: int, e: Edge3D)
    requires
        all_wf(s),
        all_outside(e, s),
        0 <= k <= s.len(),
    ensures
        all_outside(e, clip_edge_prefix(f, s, k)),
    decreases k,
{
    if k > 0 {
        lemma_clip_keeps_outside(f, s, k - 1, e);
        let prev = prev_of(s, k - 1);
        let next = s[k - 1];
        assert(!inside(e, prev) && !inside(e, next));
        let a = clip_edge_prefix(f, s, k - 1);
        let step = edge_step(f, prev, next);
        if inside(f, prev) != inside(f, next) {
            if same_axis(e, f) {
                assert(false);
            } else {
                let x0 = axis_value(f, prev);
                let x1 = axis_value(f, next);
                let num = if x1 > x0 { plane_value(f) - x0 } else { x0 - plane_value(f) };
                let den = if x1 > x0 { x1 - x0 } else { x0 - x1 };
                lemma_lerp_between(next.x - prev.x, num, den);
                lemma_lerp_between(next.y - prev.y, num, den);
                lemma_lerp_between(next.z - prev.z, num, den);
                assert(!inside(e, intersection(f, prev, next)));
            }
        }
        assert(clip_edge_prefix(f, s, k) == a + step);
        assert forall|i: int| 0 <= i < (a + step).len() implies !inside(e, #[trigger] (a + step)[i]) by {
            if i >= a.len() {
                assert((a + step)[i] == step[i - a.len()]);
            }
        }
    }
}

/// Clipping against a plane that every point lies outside leaves nothing.
proof fn lemma_clip_outside_empty(e: Edge3D, s: Seq<Point3D>, k: int)
    requires
        all_outside(e, s),
        0 <= k <= s.len(),
    ensures
        clip_edge_prefix(e, s, k).len() == 0,
    decreases k,
{
    if k > 0 {
        lemma_clip_outside_empty(e, s, k - 1);
        assert(!inside(e, prev_of(s, k - 1)));
        assert(!inside(e, s[k - 1]));
    }
}

/// A polygon that lies entirely outside one plane of the clip volume is clipped away.
pub proof fn lemma_clip_polygon_3d_outside(s: Seq<Point3D>, e: Edge3D)
    requires
        all_wf(s),
        all_outside(e, s),
    ensures
        clip_polygon_3d(s).len() == 0,
{
    let s1 = clip_edge(Edge3D::Left, s);
    let s2 = clip_edge(Edge3D::Right, s1);
    let s3 = clip_edge(Edge3D::Bottom, s2);
    let s4 = clip_edge(Edge3D::Top, s3);
    let s5 = clip_edge(Edge3D::Near, s4);
    let s6 = clip_edge(Edge3D::Far, s5);
    lemma_outside_step(Edge3D::Left, s, e);
    lemma_outside_step(Edge3D::Right, s1, e);
    lemma_outside_step(Edge3D::Bottom, s2, e);
    lemma_outside_step(Edge3D::Top, s3, e);
    lemma_outside_step(Edge3D::Near, s4, e);
    lemma_outside_step(Edge3D::Far, s5, e);
}

/// One clipping step keeps every point outside `e`; clipping against `e` itself, or
/// clipping nothing, leaves nothing.
proof fn lemma_outside_step(f: Edge3D, s: Seq<Point3D>, e: Edge3D)
    requires
        all_wf(s),
        all_outside(e, s),
    ensures
        all_wf(clip_edge(f, s)),
        all_outside(e, clip_edge(f, s)),
        f == e || s.len() == 0 ==> clip_edge(f, s).len() == 0,
{
    lemma_clip_edge_inside(f, s, s.len() as int, e);
    lemma_clip_keeps_outside(f, s, s.len() as int, e);
    if f == e {
        lemma_clip_outside_empty(e, s, s.len() as int);
    }
}

// Clipping of closed contours against convex polygons.

/// A directed edge of a clip polygon; the inside is on its right in y-down
/// coordinates (the clip polygon runs clockwise on screen).
#[derive(Clone, Copy, PartialEq, Eq, Debug)]
pub struct Edge {
    pub from: Vector2I,
    pub to: Vector2I,
}

pub open spec fn point_ok(p: Vector2I) -> bool {
    coord_ok(p.x as int) && coord_ok(p.y as int)
}

pub open spec fn points_ok(s: Seq<Vector2I>) -> bool {
    forall|i: int| 0 <= i < s.len() ==> point_ok(#[trigger] s[i])
}

/// Twice the signed area of the triangle `edge.from`, `edge.to`, `p`.
pub open spec fn edge_cross(edge: Edge, p: Vector2I) -> int {
    (edge.to.x - edge.from.x) * (p.y - edge.from.y) - (edge.to.y - edge.from.y) * (p.x - edge.from.x)
}

/// Whether `p` lies on the inner side of `edge` (or on it).
pub open spec fn inside_2d(edge: Edge, p: Vector2I) -> bool {
    edge_cross(edge, p) >= 0
}

/// Where the segment from `prev` to `next`, which crosses the line of `edge`, meets it;
/// on an axis-aligned edge the point is put exactly on the edge's line.
pub open spec fn intersection_2d(edge: Edge, prev: Vector2I, next: Vector2I) -> Vector2I {
    let cp = edge_cross(edge, prev);
    let cn = edge_cross(edge, next);
    let num = if cp >= 0 { cp } else { -cp };
    let den = if cp >= 0 { cp - cn } else { cn - cp };
    let x = lerp_coord(prev.x as int, next.x as int, num, den);
    let y = lerp_coord(prev.y as int, next.y as int, num, den);
    Vector2I {
        x: if edge.from.x == edge.to.x { edge.from.x } else { x as i32 },
        y: if edge.from.y == edge.to.y { edge.from.y } else { y as i32 },
    }
}

/// The output of one step of clipping against `edge`, from `prev` to `next`.
pub open spec fn edge_step_2d(edge: Edge, prev: Vector2I, next: Vector2I) -> Seq<Vector2I> {
    if inside_2d(edge, next) {
        if !inside_2d(edge, prev) {
            seq![intersection_2d(edge, prev, next), next]
        } else {
            seq![next]
        }
    } else if inside_2d(edge, prev) {
        seq![intersection_2d(edge, prev, next)]
    } else {
        Seq::empty()
    }
}

/// The point before the `i`-th of a closed contour.
pub open spec fn prev_of_2d(s: Seq<Vector2I>, i: int) -> Vector2I {
    if i == 0 { s.last() } else { s[i - 1] }
}

/// The output of clipping the first `k` points of contour `s` against `edge`.
pub open spec fn clip_edge_prefix_2d(edge: Edge, s: Seq<Vector2I>, k: int) -> Seq<Vector2I>
    decreases k,
{
    if k <= 0 {
        Seq::empty()
    } else {
        clip_edge_prefix_2d(edge, s, k - 1) + edge_step_2d(edge, prev_of_2d(s, k - 1), s[k - 1])
    }
}

/// Contour `s` clipped against one edge.
pub open spec fn clip_edge_2d(edge: Edge, s: Seq<Vector2I>) -> Seq<Vector2I> {
    clip_edge_prefix_2d(edge, s, s.len() as int)
}

/// The `k`-th edge of polygon `poly`: from the point before it to it.
pub open spec fn polygon_edge(poly: Seq<Vector2I>, k: int) -> Edge {
    Edge { from: prev_of_2d(poly, k), to: poly[k] }
}

/// Contour `s` clipped against the first `k` edges of polygon `poly`.
pub open spec fn clip_polygon_prefix(poly: Seq<Vector2I>, s: Seq<Vector2I>, k: int) -> Seq<Vector2I>
    decreases k,
{
    if k <= 0 {
        s
    } else {
        clip_edge_2d(polygon_edge(poly, k - 1), clip_polygon_prefix(poly, s, k - 1))
    }
}

/// Contour `s` clipped against every edge of polygon `poly`; nothing remains of it
/// against an empty polygon.
pub open spec fn clip_contour(poly: Seq<Vector2I>, s: Seq<Vector2I>) -> Seq<Vector2I> {
    if poly.len() == 0 { Seq::empty() } else { clip_polygon_prefix(poly, s, poly.len() as int) }
}

/// The corners of a rectangle in clipping order: origin, top right, bottom right,
/// bottom left.
pub open spec fn rect_corners(r: FixedRect) -> Seq<Vector2I> {
    seq![
        Vector2I { x: r.min_x, y: r.min_y },
        Vector2I { x: r.max_x, y: r.min_y },
        Vector2I { x: r.max_x, y: r.max_y },
        Vector2I { x: r.min_x, y: r.max_y },
    ]
}

pub open spec fn in_rect(r: FixedRect, p: Vector2I) -> bool {
    r.min_x <= p.x <= r.max_x && r.min_y <= p.y <= r.max_y
}

/// `a + floor((b - a) * num / den)` for wide fractions, staying between `a` and `b`.
pub(crate) fn lerp_wide(a: i32, b: i32, num: i128, den: i128) -> (r: i32)
    requires
        coord_ok(a as int),
        coord_ok(b as int),
        0 <= num <= den,
        0 < den < 0x1_0000_0000_0000_0000,
    ensures
        r as int == lerp_coord(a as int, b as int, num as int, den as int),
        (a <= r <= b) || (b <= r <= a),
{
    let d: i128 = b as i128 - a as i128;
    proof {
        lemma_lerp_between(d as int, num as int, den as int);
        assert(-0x800_0000 * 0x1_0000_0000_0000_0000 <= d * num <= 0x800_0000 * 0x1_0000_0000_0000_0000) by (nonlinear_arith)
            requires
                -0x800_0000 <= d <= 0x800_0000,
                0 <= num <= 0x1_0000_0000_0000_0000,
        ;
    }
    let p = d * num;
    let q: i128 = if p >= 0 {
        p / den
    } else {
        let n = -p;
        let c = (n + den - 1) / den;
        proof {
            crate::tile_map::lemma_neg_floor(n as int, den as int);
        }
        -c
    };
    (a as i128 + q) as i32
}

impl Edge {
    /// Whether `point` lies on the inner side of this edge.
    pub fn point_is_inside(&self, point: Vector2I) -> (r: bool)
        requires
            point_ok(self.from),
            point_ok(self.to),
            point_ok(point),
        ensures
            r == inside_2d(*self, point),
    {
        let ex = self.to.x as i64 - self.from.x as i64;
        let ey = self.to.y as i64 - self.from.y as i64;
        let px = point.x as i64 - self.from.x as i64;
        let py = point.y as i64 - self.from.y as i64;
        proof {
            lemma_cross_bounds(ex as int, ey as int, px as int, py as int);
        }
        ex * py - ey * px >= 0
    }

    /// Where the segment from `prev` to `next`, which crosses this edge's line, meets it.
    pub fn line_intersection(&self, prev: Vector2I, next: Vector2I) -> (r: Vector2I)
        requires
            point_ok(self.from),
            point_ok(self.to),
            point_ok(prev),
            point_ok(next),
            inside_2d(*self, prev) != inside_2d(*self, next),
        ensures
            r == intersection_2d(*self, prev, next),
            point_ok(r),
    {
        let ex = self.to.x as i64 - self.from.x as i64;
        let ey = self.to.y as i64 - self.from.y as i64;
        proof {
            lemma_cross_bounds(ex as int, ey as int, prev.x - self.from.x, prev.y - self.from.y);
            lemma_cross_bounds(ex as int, ey as int, next.x - self.from.x, next.y - self.from.y);
        }
        let cp = ex * (prev.y as i64 - self.from.y as i64) - ey * (prev.x as i64 - self.from.x as i64);
        let cn = ex * (next.y as i64 - self.from.y as i64) - ey * (next.x as i64 - self.from.x as i64);
        let (num, den) = if cp >= 0 { (cp as i128, cp as i128 - cn as i128) } else { (-(cp as i128), cn as i128 - cp as i128) };
        let x = lerp_wide(prev.x, next.x, num, den);
        let y = lerp_wide(prev.y, next.y, num, den);
        Vector2I {
            x: if self.from.x == self.to.x { self.from.x } else { x },
            y: if self.from.y == self.to.y { self.from.y } else { y },
        }
    }
}

/// Cross products of in-range coordinates fit in 64 bits.
pub proof fn lemma_cross_bounds_pub(ex: int, ey: int, px: int, py: int)
    requires
        -0x800_0000 <= ex <= 0x800_0000,
        -0x800_0000 <= ey <= 0x800_0000,
        -0x800_0000 <= px <= 0x800_0000,
        -0x800_0000 <= py <= 0x800_0000,
    ensures
        -0x40_0000_0000_0000 <= ex * py <= 0x40_0000_0000_0000,
        -0x40_0000_0000_0000 <= ey * px <= 0x40_0000_0000_0000,
{
    lemma_cross_bounds(ex, ey, px, py);
}

proof fn lemma_cross_bounds(ex: int, ey: int, px: int, py: int)
    requires
        -0x800_0000 <= ex <= 0x800_0000,
        -0x800_0000 <= ey <= 0x800_0000,
        -0x800_0000 <= px <= 0x800_0000,
        -0x800_0000 <= py <= 0x800_0000,
    ensures
        -0x40_0000_0000_0000 <= ex * py <= 0x40_0000_0000_0000,
        -0x40_0000_0000_0000 <= ey * px <= 0x40_0000_0000_0000,
{
    assert(-0x40_0000_0000_0000 <= ex * py <= 0x40_0000_0000_0000) by (nonlinear_arith)
        requires
            -0x800_0000 <= ex <= 0x800_0000,
            -0x800_0000 <= py <= 0x800_0000,
    ;
    assert(-0x40_0000_0000_0000 <= ey * px <= 0x40_0000_0000_0000) by (nonlinear_arith)
        requires
            -0x800_0000 <= ey <= 0x800_0000,
            -0x800_0000 <= px <= 0x800_0000,
    ;
}

/// Clips a closed contour against a convex polygon, one edge at a time.
pub struct ContourClipper {
    pub clip_polygon: Vec<Vector2I>,
    pub contour: Contour,
}

impl ContourClipper {
    pub fn new(clip_polygon: &[Vector2I], contour: Contour) -> (r: ContourClipper)
        ensures
            r.clip_polygon@ == clip_polygon@,
            r.contour.points@ == contour.points@,
    {
        let mut polygon: Vec<Vector2I> = Vec::new();
        let mut i: usize = 0;
        while i < clip_polygon.len()
            invariant
                i <= clip_polygon@.len(),
                polygon@ == clip_polygon@.take(i as int),
            decreases clip_polygon@.len() - i,
        {
            polygon.push(clip_polygon[i]);
            proof {
                assert(clip_polygon@.take(i + 1) =~= clip_polygon@.take(i as int).push(clip_polygon@[i as int]));
            }
            i = i + 1;
        }
        proof {
            assert(clip_polygon@.take(clip_polygon@.len() as int) =~= clip_polygon@);
        }
        ContourClipper { clip_polygon: polygon, contour }
    }

    /// A clipper against the rectangle `clip_rect`.
    pub fn from_rect(clip_rect: FixedRect, contour: Contour) -> (r: ContourClipper)
        ensures
            r.clip_polygon@ == rect_corners(clip_rect),
            r.contour.points@ == contour.points@,
    {
        let corners = [
            Vector2I { x: clip_rect.min_x, y: clip_rect.min_y },
            Vector2I { x: clip_rect.max_x, y: clip_rect.min_y },
            Vector2I { x: clip_rect.max_x, y: clip_rect.max_y },
            Vector2I { x: clip_rect.min_x, y: clip_rect.max_y },
        ];
        let r = ContourClipper::new(&corners, contour);
        proof {
            assert(r.clip_polygon@ =~= rect_corners(clip_rect));
        }
        r
    }

    /// The contour clipped against the polygon.
    pub fn clip(self) -> (r: Contour)
        requires
            points_ok(self.clip_polygon@),
            points_ok(self.contour.points@),
        ensures
            r.points@ == clip_contour(self.clip_polygon@, self.contour.points@),
    {
        let mut this = self;
        let ghost poly = this.clip_polygon@;
        let ghost s0 = this.contour.points@;
        let n = this.clip_polygon.len();
        if n == 0 {
            return Contour { points: Vec::new() };
        }
        let mut prev = this.clip_polygon[n - 1];
        let mut k: usize = 0;
        while k < n
            invariant
                n == poly.len(),
                n > 0,
                k <= n,
                poly == this.clip_polygon@,
                points_ok(poly),
                prev == prev_of_2d(poly, k as int),
                this.contour.points@ == clip_polygon_prefix(poly, s0, k as int),
                points_ok(this.contour.points@),
            decreases n - k,
        {
            let next = this.clip_polygon[k];
            let edge = Edge { from: prev, to: next };
            this.clip_against(edge);
            prev = next;
            k = k + 1;
        }
        this.contour
    }

    fn clip_against(&mut self, edge: Edge)
        requires
            point_ok(edge.from),
            point_ok(edge.to),
            points_ok(old(self).contour.points@),
        ensures
            final(self).contour.points@ == clip_edge_2d(edge, old(self).contour.points@),
            points_ok(final(self).contour.points@),
            final(self).clip_polygon == old(self).clip_polygon,
    {
        let mut input: Vec<Vector2I> = Vec::new();
        std::mem::swap(&mut input, &mut self.contour.points);
        let n = input.len();
        if n == 0 {
            return;
        }
        let mut prev = input[n - 1];
        let mut i: usize = 0;
        while i < n
            invariant
                n == input@.len(),
                n > 0,
                0 <= i <= n,
                point_ok(edge.from),
                point_ok(edge.to),
                points_ok(input@),
                prev == prev_of_2d(input@, i as int),
                self.contour.points@ == clip_edge_prefix_2d(edge, input@, i as int),
                points_ok(self.contour.points@),
                self.clip_polygon == old(self).clip_polygon,
            decreases n - i,
        {
            let next = input[i];
            let ghost before = self.contour.points@;
            if edge.point_is_inside(next) {
                if !edge.point_is_inside(prev) {
                    let p = edge.line_intersection(prev, next);
                    self.contour.points.push(p);
                }
                self.contour.points.push(next);
            } else if edge.point_is_inside(prev) {
                let p = edge.line_intersection(prev, next);
                self.contour.points.push(p);
            }
            proof {
                assert(self.contour.points@ =~= before + edge_step_2d(edge, prev, next));
            }
            prev = next;
            i = i + 1;
        }
    }
}

/// The coordinate condition that edge `k` of a rectangle's clip polygon imposes.
pub open spec fn rect_side(r: FixedRect, k: int, p: Vector2I) -> bool {
    if k == 0 {
        p.x >= r.min_x
    } else if k == 1 {
        p.y >= r.min_y
    } else if k == 2 {
        p.x <= r.max_x
    } else {
        p.y <= r.max_y
    }
}

/// For a rectangle with positive width and height, the inside of its `k`-th clip
/// edge is exactly the half-plane of `rect_side`.
proof fn lemma_rect_edge_side(r: FixedRect, k: int, p: Vector2I)
    requires
        r.min_x < r.max_x,
        r.min_y < r.max_y,
        0 <= k < 4,
    ensures
        inside_2d(polygon_edge(rect_corners(r), k), p) == rect_side(r, k, p),
{
    let w = r.max_x - r.min_x;
    let h = r.max_y - r.min_y;
    let e = polygon_edge(rect_corners(r), k);
    let (px, py) = (p.x as int, p.y as int);
    let (fx, fy, tx, ty) = (e.from.x as int, e.from.y as int, e.to.x as int, e.to.y as int);
    assert(edge_cross(e, p) == (tx - fx) * (py - fy) - (ty - fy) * (px - fx));
    if k == 0 {
        assert(fx == r.min_x && fy == r.max_y && tx == r.min_x && ty == r.min_y);
        assert((tx - fx) * (py - fy) - (ty - fy) * (px - fx) == h * (px - r.min_x)) by (nonlinear_arith)
            requires
                fx == r.min_x,
                fy == r.max_y,
                tx == r.min_x,
                ty == r.min_y,
                h == r.max_y - r.min_y,
        ;
        lemma_sign_of_product(h, px - r.min_x);
    } else if k == 1 {
        assert(fx == r.min_x && fy == r.min_y && tx == r.max_x && ty == r.min_y);
        assert((tx - fx) * (py - fy) - (ty - fy) * (px - fx) == w * (py - r.min_y)) by (nonlinear_arith)
            requires
                fx == r.min_x,
                fy == r.min_y,
                tx == r.max_x,
                ty == r.min_y,
                w == r.max_x - r.min_x,
        ;
        lemma_sign_of_product(w, py - r.min_y);
    } else if k == 2 {
        assert(fx == r.max_x && fy == r.min_y && tx == r.max_x && ty == r.max_y);
        assert((tx - fx) * (py - fy) - (ty - fy) * (px - fx) == h * (r.max_x - px)) by (nonlinear_arith)
            requires
                fx == r.max_x,
                fy == r.min_y,
                tx == r.max_x,
                ty == r.max_y,
                h == r.max_y - r.min_y,
        ;
        lemma_sign_of_product(h, r.max_x - px);
    } else {
        assert(fx == r.max_x && fy == r.max_y && tx == r.min_x && ty == r.max_y);
        assert((tx - fx) * (py - fy) - (ty - fy) * (px - fx) == w * (r.max_y - py)) by (nonlinear_arith)
            requires
                fx == r.max_x,
                fy == r.max_y,
                tx == r.min_x,
                ty == r.max_y,
                w == r.max_x - r.min_x,
        ;
        lemma_sign_of_product(w, r.max_y - py);
    }
}

proof fn lemma_sign_of_product(a: int, b: int)
    requires
        a > 0,
    ensures
        (a * b >= 0) == (b >= 0),
{
    if b >= 0 {
        assert(a * b >= 0) by (nonlinear_arith)
            requires
                a > 0,
                b >= 0,
        ;
    } else {
        assert(a * b < 0) by (nonlinear_arith)
            requires
                a > 0,
                b < 0,
        ;
    }
}

/// The intersection with edge `k` satisfies that edge's condition, and every
/// condition that both ends satisfy.
proof fn lemma_rect_intersection(r: FixedRect, k: int, prev: Vector2I, next: Vector2I, j: int)
    requires
        r.min_x < r.max_x,
        r.min_y < r.max_y,
        0 <= k < 4,
        0 <= j < 4,
        point_ok(prev),
        point_ok(next),
        coord_ok(r.min_x as int),
        coord_ok(r.min_y as int),
        coord_ok(r.max_x as int),
        coord_ok(r.max_y as int),
        inside_2d(polygon_edge(rect_corners(r), k), prev) != inside_2d(polygon_edge(rect_corners(r), k), next),
    ensures
        rect_side(r, k, intersection_2d(polygon_edge(rect_corners(r), k), prev, next)),
        rect_side(r, j, prev) && rect_side(r, j, next) ==> rect_side(
            r,
            j,
            intersection_2d(polygon_edge(rect_corners(r), k), prev, next),
        ),
        point_ok(intersection_2d(polygon_edge(rect_corners(r), k), prev, next)),
{
    let e = polygon_edge(rect_corners(r), k);
    let cp = edge_cross(e, prev);
    let cn = edge_cross(e, next);
    let num = if cp >= 0 { cp } else { -cp };
    let den = if cp >= 0 { cp - cn } else { cn - cp };
    assert(0 <= num <= den && den > 0);
    lemma_lerp_between(next.x - prev.x, num, den);
    lemma_lerp_between(next.y - prev.y, num, den);
    let corners = rect_corners(r);
    if k == 0 {
        assert(e.from == corners[3] && e.to == corners[0]);
    } else {
        assert(e.from == corners[k - 1] && e.to == corners[k]);
    }
}

/// Clipping against edge `k` of a rectangle puts every point on that edge's side and
/// keeps every point on side `j` where all input points were.
proof fn lemma_rect_clip_edge(r: FixedRect, k: int, s: Seq<Vector2I>, n: int, j: int)
    requires
        r.min_x < r.max_x,
        r.min_y < r.max_y,
        coord_ok(r.min_x as int),
        coord_ok(r.min_y as int),
        coord_ok(r.max_x as int),
        coord_ok(r.max_y as int),
        0 <= k < 4,
        0 <= j < 4,
        0 <= n <= s.len(),
        points_ok(s),
    ensures
        points_ok(clip_edge_prefix_2d(polygon_edge(rect_corners(r), k), s, n)),
        forall|i: int| 0 <= i < clip_edge_prefix_2d(polygon_edge(rect_corners(r), k), s, n).len()
            ==> rect_side(r, k, #[trigger] clip_edge_prefix_2d(polygon_edge(rect_corners(r), k), s, n)[i]),
        (forall|i: int| 0 <= i < s.len() ==> rect_side(r, j, #[trigger] s[i])) ==> forall|i: int|
            0 <= i < clip_edge_prefix_2d(polygon_edge(rect_corners(r), k), s, n).len() ==> rect_side(
                r,
                j,
                #[trigger] clip_edge_prefix_2d(polygon_edge(rect_corners(r), k), s, n)[i],
            ),
    decreases n,
{
    if n > 0 {
        let e = polygon_edge(rect_corners(r), k);
        lemma_rect_clip_edge(r, k, s, n - 1, j);
        let prev = prev_of_2d(s, n - 1);
        let next = s[n - 1];
        assert(point_ok(prev));
        assert(point_ok(next));
        lemma_rect_edge_side(r, k, prev);
        lemma_rect_edge_side(r, k, next);
        if inside_2d(e, prev) != inside_2d(e, next) {
            lemma_rect_intersection(r, k, prev, next, j);
        }
        let a = clip_edge_prefix_2d(e, s, n - 1);
        let step = edge_step_2d(e, prev, next);
        assert(clip_edge_prefix_2d(e, s, n) == a + step);
        assert forall|i: int| 0 <= i < (a + step).len() implies point_ok(#[trigger] (a + step)[i]) by {
            if i >= a.len() {
                assert((a + step)[i] == step[i - a.len()]);
            }
        }
        if forall|i: int| 0 <= i < s.len() ==> rect_side(r, j, #[trigger] s[i]) {
            assert(rect_side(r, j, prev));
            assert(rect_side(r, j, next));
        }
    }
}

/// After the first `k` edges of a rectangle, every point satisfies their conditions.
proof fn lemma_rect_clip_prefix(r: FixedRect, s: Seq<Vector2I>, k: int)
    requires
        r.min_x < r.max_x,
        r.min_y < r.max_y,
        coord_ok(r.min_x as int),
        coord_ok(r.min_y as int),
        coord_ok(r.max_x as int),
        coord_ok(r.max_y as int),
        0 <= k <= 4,
        points_ok(s),
    ensures
        points_ok(clip_polygon_prefix(rect_corners(r), s, k)),
        forall|j: int, i: int| 0 <= j < k && 0 <= i < clip_polygon_prefix(rect_corners(r), s, k).len()
            ==> #[trigger] rect_side(r, j, clip_polygon_prefix(rect_corners(r), s, k)[i]),
    decreases k,
{
    if k > 0 {
        lemma_rect_clip_prefix(r, s, k - 1);
        let before = clip_polygon_prefix(rect_corners(r), s, k - 1);
        let after = clip_polygon_prefix(rect_corners(r), s, k);
        lemma_rect_clip_edge(r, k - 1, before, before.len() as int, 0);
        assert forall|j: int, i: int| 0 <= j < k && 0 <= i < after.len() implies #[trigger] rect_side(r, j, after[i]) by {
            lemma_rect_clip_edge(r, k - 1, before, before.len() as int, j);
            if j < k - 1 {
                assert(forall|i2: int| 0 <= i2 < before.len() ==> rect_side(r, j, #[trigger] before[i2]));
            }
        }
    }
}

/// Every point of a contour clipped to a rectangle (with positive width and height)
/// lies inside the rectangle, exactly.
pub proof fn lemma_rect_clip_inside(r: FixedRect, s: Seq<Vector2I>)
    requires
        r.min_x < r.max_x,
        r.min_y < r.max_y,
        coord_ok(r.min_x as int),
        coord_ok(r.min_y as int),
        coord_ok(r.max_x as int),
        coord_ok(r.max_y as int),
        points_ok(s),
    ensures
        forall|i: int| 0 <= i < clip_contour(rect_corners(r), s).len() ==> in_rect(
            r,
            #[trigger] clip_contour(rect_corners(r), s)[i],
        ),
        points_ok(clip_contour(rect_corners(r), s)),
{
    lemma_rect_clip_prefix(r, s, 4);
    let c = clip_contour(rect_corners(r), s);
    assert forall|i: int| 0 <= i < c.len() implies in_rect(r, #[trigger] c[i]) by {
        assert(rect_side(r, 0, c[i]));
        assert(rect_side(r, 1, c[i]));
        assert(rect_side(r, 2, c[i]));
        assert(rect_side(r, 3, c[i]));
    }
}

/// Clipping against an edge that every point already lies inside changes nothing.
proof fn lemma_clip_edge_2d_keeps(edge: Edge, s: Seq<Vector2I>, k: int)
    requires
        0 <= k <= s.len(),
        forall|i: int| 0 <= i < s.len() ==> inside_2d(edge, #[trigger] s[i]),
    ensures
        clip_edge_prefix_2d(edge, s, k) == s.take(k),
    decreases k,
{
    if k > 0 {
        lemma_clip_edge_2d_keeps(edge, s, k - 1);
        assert(inside_2d(edge, prev_of_2d(s, k - 1)));
        assert(s.take(k) =~= s.take(k - 1) + seq![s[k - 1]]);
    }
}

/// Clipping to a rectangle is idempotent: clipping the clipped contour again
/// returns it unchanged.
pub proof fn lemma_rect_clip_idempotent(r: FixedRect, s: Seq<Vector2I>)
    requires
        r.min_x < r.max_x,
        r.min_y < r.max_y,
        coord_ok(r.min_x as int),
        coord_ok(r.min_y as int),
        coord_ok(r.max_x as int),
        coord_ok(r.max_y as int),
        points_ok(s),
    ensures
        clip_contour(rect_corners(r), clip_contour(rect_corners(r), s)) == clip_contour(rect_corners(r), s),
{
    let poly = rect_corners(r);
    let c = clip_contour(poly, s);
    lemma_rect_clip_inside(r, s);
    assert forall|k: int, i: int| 0 <= k < 4 && 0 <= i < c.len() implies #[trigger] inside_2d(polygon_edge(poly, k), c[i]) by {
        lemma_rect_edge_side(r, k, c[i]);
        assert(in_rect(r, c[i]));
    }
    assert(c.take(c.len() as int) =~= c);
    lemma_clip_edge_2d_keeps(polygon_edge(poly, 0), c, c.len() as int);
    lemma_clip_edge_2d_keeps(polygon_edge(poly, 1), c, c.len() as int);
    lemma_clip_edge_2d_keeps(polygon_edge(poly, 2), c, c.len() as int);
    lemma_clip_edge_2d_keeps(polygon_edge(poly, 3), c, c.len() as int);
    assert(clip_polygon_prefix(poly, c, 0) == c);
    assert(clip_polygon_prefix(poly, c, 1) == c);
    assert(clip_polygon_prefix(poly, c, 2) == c);
    assert(clip_polygon_prefix(poly, c, 3) == c);
    assert(clip_polygon_prefix(poly, c, 4) == c);
}

// Clipping of path events against a rectangle.

/// One step of a path outline, in fixed-point scene coordinates.
#[derive(Clone, Copy, PartialEq, Eq, Debug)]
pub enum PathEvent {
    MoveTo(Vector2I),
    LineTo(Vector2I),
    QuadraticTo(Vector2I, Vector2I),
    CubicTo(Vector2I, Vector2I, Vector2I),
    Close,
}

/// The point that an event ends at, other than at a `Close`.
pub open spec fn event_end(e: PathEvent) -> Option<Vector2I> {
    match e {
        PathEvent::MoveTo(p) => Some(p),
        PathEvent::LineTo(p) => Some(p),
        PathEvent::QuadraticTo(_, p) => Some(p),
        PathEvent::CubicTo(_, _, p) => Some(p),
        PathEvent::Close => None,
    }
}

pub open spec fn is_move(e: PathEvent) -> bool {
    e matches PathEvent::MoveTo(_)
}

/// Every drawing event of `events` comes after some `MoveTo`.
pub open spec fn opened(events: Seq<PathEvent>) -> bool {
    forall|k: int| 0 <= k < events.len() && event_end(#[trigger] events[k]).is_some() && !is_move(events[k])
        ==> exists|j: int| 0 <= j < k && is_move(#[trigger] events[j])
}

/// Every end point of `events` is within the coordinate range.
pub open spec fn events_ok(events: Seq<PathEvent>) -> bool {
    forall|k: int| 0 <= k < events.len() && event_end(#[trigger] events[k]).is_some() ==> point_ok(
        event_end(events[k]).unwrap(),
    )
}

/// Every end point of `events` satisfies the conditions of the first `n` edges of `r`.
pub open spec fn events_on_sides(r: FixedRect, events: Seq<PathEvent>, n: int) -> bool {
    forall|k: int, j: int| 0 <= k < events.len() && 0 <= j < n && event_end(#[trigger] events[k]).is_some()
        ==> #[trigger] rect_side(r, j, event_end(events[k]).unwrap())
}

/// The events after adding a line (or, at the start of a subpath, a move) to `p`.
pub open spec fn add_line_spec(out: Seq<PathEvent>, first: bool, p: Vector2I) -> Seq<PathEvent> {
    out.push(if first { PathEvent::MoveTo(p) } else { PathEvent::LineTo(p) })
}

/// State of clipping events against one edge: output so far, current point, start of
/// the subpath, and whether the next output starts a subpath.
pub type EventClipState = (Seq<PathEvent>, Vector2I, Option<Vector2I>, bool);

/// One straight step from the current point to `to`, clipped against `edge`.
pub open spec fn line_step(edge: Edge, st: EventClipState, to: Vector2I) -> EventClipState {
    let (out, from, ps, first) = st;
    let ti = inside_2d(edge, to);
    let fi = inside_2d(edge, from);
    let i = intersection_2d(edge, from, to);
    if ti && !fi {
        (add_line_spec(add_line_spec(out, first, i), false, to), to, ps, false)
    } else if ti && first {
        (add_line_spec(add_line_spec(out, true, from), false, to), to, ps, false)
    } else if ti {
        (add_line_spec(out, first, to), to, ps, false)
    } else if fi {
        (add_line_spec(out, first, i), to, ps, false)
    } else {
        (out, to, ps, first)
    }
}

/// One event clipped against `edge`: a move starts a subpath, a close returns to its
/// start, and every other event is a straight step to its end.
pub open spec fn event_step(edge: Edge, st: EventClipState, e: PathEvent) -> EventClipState {
    match e {
        PathEvent::MoveTo(to) => (st.0, to, Some(to), true),
        PathEvent::Close => match st.2 {
            None => st,
            Some(start) => {
                let s1 = line_step(edge, st, start);
                (s1.0.push(PathEvent::Close), s1.1, None, s1.3)
            },
        },
        PathEvent::LineTo(to) => line_step(edge, st, to),
        PathEvent::QuadraticTo(_, to) => line_step(edge, st, to),
        PathEvent::CubicTo(_, _, to) => line_step(edge, st, to),
    }
}

/// The state after clipping the first `n` events against `edge`.
pub open spec fn clip_events_prefix(edge: Edge, events: Seq<PathEvent>, n: int) -> EventClipState
    decreases n,
{
    if n <= 0 {
        (Seq::empty(), Vector2I { x: 0, y: 0 }, None, false)
    } else {
        event_step(edge, clip_events_prefix(edge, events, n - 1), events[n - 1])
    }
}

/// Events clipped against one edge.
pub open spec fn clip_events_edge(edge: Edge, events: Seq<PathEvent>) -> Seq<PathEvent> {
    clip_events_prefix(edge, events, events.len() as int).0
}

/// Events clipped against the first `k` edges of rectangle `r`.
pub open spec fn clip_events_rect_prefix(r: FixedRect, events: Seq<PathEvent>, k: int) -> Seq<PathEvent>
    decreases k,
{
    if k <= 0 {
        events
    } else {
        clip_events_edge(polygon_edge(rect_corners(r), k - 1), clip_events_rect_prefix(r, events, k - 1))
    }
}

/// Events clipped against the left, top, right and bottom edges of `r`, in turn.
pub open spec fn clip_events_rect(r: FixedRect, events: Seq<PathEvent>) -> Seq<PathEvent> {
    clip_events_rect_prefix(r, events, 4)
}

/// Clips path events against a rectangle; curves are replaced by lines to their ends.
pub struct RectClipper {
    pub clip_rect: FixedRect,
    pub subject: Vec<PathEvent>,
}

impl RectClipper {
    pub fn new(clip_rect: &FixedRect, subject: &[PathEvent]) -> (r: RectClipper)
        ensures
            r.clip_rect == *clip_rect,
            r.subject@ == subject@,
    {
        let mut events: Vec<PathEvent> = Vec::new();
        let mut i: usize = 0;
        while i < subject.len()
            invariant
                i <= subject@.len(),
                events@ == subject@.take(i as int),
            decreases subject@.len() - i,
        {
            events.push(subject[i]);
            proof {
                assert(subject@.take(i + 1) =~= subject@.take(i as int).push(subject@[i as int]));
            }
            i = i + 1;
        }
        proof {
            assert(subject@.take(subject@.len() as int) =~= subject@);
        }
        RectClipper { clip_rect: *clip_rect, subject: events }
    }

    /// The subject clipped to the rectangle, edge by edge. Where the rectangle has
    /// positive width and height and the subject starts each drawing after a
    /// `MoveTo`, every point of the result lies in the rectangle.
    pub fn clip(&self) -> (r: Vec<PathEvent>)
        requires
            point_ok(Vector2I { x: self.clip_rect.min_x, y: self.clip_rect.min_y }),
            point_ok(Vector2I { x: self.clip_rect.max_x, y: self.clip_rect.max_y }),
            events_ok(self.subject@),
        ensures
            events_ok(r@),
            r@ == clip_events_rect(self.clip_rect, self.subject@),
            opened(self.subject@) && self.clip_rect.min_x < self.clip_rect.max_x
                && self.clip_rect.min_y < self.clip_rect.max_y ==> (forall|k: int| 0 <= k < r@.len()
                && event_end(#[trigger] r@[k]).is_some() ==> in_rect(self.clip_rect, event_end(r@[k]).unwrap())),
    {
        let r = self.clip_rect;
        let corners = [
            Vector2I { x: r.min_x, y: r.min_y },
            Vector2I { x: r.max_x, y: r.min_y },
            Vector2I { x: r.max_x, y: r.max_y },
            Vector2I { x: r.min_x, y: r.max_y },
        ];
        proof {
            assert(corners@ =~= rect_corners(r));
        }
        let mut output: Vec<PathEvent> = Vec::new();
        let mut i: usize = 0;
        while i < self.subject.len()
            invariant
                i <= self.subject@.len(),
                output@ == self.subject@.take(i as int),
            decreases self.subject@.len() - i,
        {
            output.push(self.subject[i]);
            proof {
                assert(self.subject@.take(i + 1) =~= self.subject@.take(i as int).push(self.subject@[i as int]));
            }
            i = i + 1;
        }
        proof {
            assert(self.subject@.take(self.subject@.len() as int) =~= self.subject@);
        }
        let ghost proper = opened(self.subject@) && r.min_x < r.max_x && r.min_y < r.max_y;
        let mut k: usize = 0;
        while k < 4
            invariant
                k <= 4,
                r == self.clip_rect,
                corners@ == rect_corners(r),
                point_ok(Vector2I { x: r.min_x, y: r.min_y }),
                point_ok(Vector2I { x: r.max_x, y: r.max_y }),
                events_ok(output@),
                proper == (opened(self.subject@) && r.min_x < r.max_x && r.min_y < r.max_y),
                proper ==> opened(output@) && events_on_sides(r, output@, k as int),
                output@ == clip_events_rect_prefix(r, self.subject@, k as int),
            decreases 4 - k,
        {
            let from = if k == 0 { corners[3] } else { corners[k - 1] };
            let edge = Edge { from, to: corners[k] };
            proof {
                assert(edge == polygon_edge(rect_corners(r), k as int));
            }
            self.clip_against(edge, &mut output, Ghost(k as int));
            k = k + 1;
        }
        proof {
            if proper {
                assert forall|m: int| 0 <= m < output@.len() && event_end(#[trigger] output@[m]).is_some()
                    implies in_rect(r, event_end(output@[m]).unwrap()) by {
                    assert(rect_side(r, 0, event_end(output@[m]).unwrap()));
                    assert(rect_side(r, 1, event_end(output@[m]).unwrap()));
                    assert(rect_side(r, 2, event_end(output@[m]).unwrap()));
                    assert(rect_side(r, 3, event_end(output@[m]).unwrap()));
                }
            }
        }
        output
    }

    fn clip_against(&self, edge: Edge, output: &mut Vec<PathEvent>, k: Ghost<int>)
        requires
            0 <= k@ < 4,
            edge == polygon_edge(rect_corners(self.clip_rect), k@),
            point_ok(Vector2I { x: self.clip_rect.min_x, y: self.clip_rect.min_y }),
            point_ok(Vector2I { x: self.clip_rect.max_x, y: self.clip_rect.max_y }),
            events_ok(old(output)@),
        ensures
            events_ok(final(output)@),
            final(output)@ == clip_events_edge(edge, old(output)@),
            self.clip_rect.min_x < self.clip_rect.max_x && self.clip_rect.min_y < self.clip_rect.max_y
                && opened(old(output)@) && events_on_sides(self.clip_rect, old(output)@, k@)
                ==> opened(final(output)@) && events_on_sides(self.clip_rect, final(output)@, k@ + 1),
    {
        let r = self.clip_rect;
        let ghost proper = r.min_x < r.max_x && r.min_y < r.max_y && opened(old(output)@)
            && events_on_sides(r, old(output)@, k@);
        let mut input: Vec<PathEvent> = Vec::new();
        std::mem::swap(&mut input, output);
        let mut from = Vector2I { x: 0, y: 0 };
        let mut path_start: Option<Vector2I> = None;
        let mut first_point = false;
        let ghost mut seen_move = false;
        proof {
            let corners = rect_corners(r);
            if k@ == 0 {
                assert(edge.from == corners[3] && edge.to == corners[0]);
            } else {
                assert(edge.from == corners[k@ - 1] && edge.to == corners[k@]);
            }
        }
        let n = input.len();
        let mut i: usize = 0;
        while i < n
            invariant
                n == input@.len(),
                i <= n,
                input@ == old(output)@,
                0 <= k@ < 4,
                r == self.clip_rect,
                edge == polygon_edge(rect_corners(r), k@),
                point_ok(edge.from),
                point_ok(edge.to),
                point_ok(Vector2I { x: r.min_x, y: r.min_y }),
                point_ok(Vector2I { x: r.max_x, y: r.max_y }),
                events_ok(input@),
                events_ok(output@),
                point_ok(from),
                path_start.is_some() ==> point_ok(path_start.unwrap()),
                proper == (r.min_x < r.max_x && r.min_y < r.max_y && opened(input@) && events_on_sides(r, input@, k@)),
                seen_move == exists|j: int| 0 <= j < i && is_move(#[trigger] input@[j]),
                !seen_move ==> path_start.is_none(),
                proper && seen_move ==> forall|j: int| 0 <= j < k@ ==> #[trigger] rect_side(r, j, from),
                proper && path_start.is_some() ==> forall|j: int| 0 <= j < k@ ==> #[trigger] rect_side(r, j, path_start.unwrap()),
                proper ==> events_on_sides(r, output@, k@ + 1),
                proper ==> opened(output@),
                seen_move && !first_point ==> exists|j: int| 0 <= j < output@.len() && is_move(#[trigger] output@[j]),
                first_point ==> seen_move,
                (output@, from, path_start, first_point) == clip_events_prefix(edge, input@, i as int),
            decreases n - i,
        {
            let event = input[i];
            let ghost st0: EventClipState = (output@, from, path_start, first_point);
            proof {
                if proper && event_end(event).is_some() {
                    assert(event_end(input@[i as int]).is_some());
                    assert forall|j: int| 0 <= j < k@ implies #[trigger] rect_side(r, j, event_end(event).unwrap()) by {
                        assert(event_end(input@[i as int]).is_some());
                    }
                }
                if event_end(event).is_some() {
                    assert(point_ok(event_end(input@[i as int]).unwrap()));
                }
            }
            let ghost seen_before = seen_move;
            let is_close = match event {
                PathEvent::Close => true,
                _ => false,
            };
            let target = match event {
                PathEvent::MoveTo(to) => {
                    path_start = Some(to);
                    from = to;
                    first_point = true;
                    None
                },
                PathEvent::Close => path_start,
                PathEvent::LineTo(to) => Some(to),
                PathEvent::QuadraticTo(_, to) => Some(to),
                PathEvent::CubicTo(_, _, to) => Some(to),
            };
            proof {
                if is_move(event) {
                    seen_move = true;
                    assert(is_move(input@[i as int]));
                } else {
                    assert(seen_move == exists|j: int| 0 <= j < i + 1 && is_move(#[trigger] input@[j])) by {
                        if exists|j: int| 0 <= j < i + 1 && is_move(#[trigger] input@[j]) {
                            let j = choose|j: int| 0 <= j < i + 1 && is_move(#[trigger] input@[j]);
                            assert(j < i);
                        }
                    }
                }
                if proper && target.is_some() && !is_close {
                    assert(event_end(input@[i as int]).is_some() && !is_move(input@[i as int]));
                    let j = choose|j: int| 0 <= j < i && is_move(#[trigger] input@[j]);
                    assert(seen_before);
                }
            }
            let close_here = is_close && target.is_some();
            let ghost st1: EventClipState = (output@, from, path_start, first_point);
            match target {
                Some(to) => {
                    let ghost out0 = output@;
                    let to_inside = edge.point_is_inside(to);
                    let from_inside = edge.point_is_inside(from);
                    proof {
                        if proper {
                            lemma_rect_edge_side(r, k@, to);
                            lemma_rect_edge_side(r, k@, from);
                            if to_inside != from_inside {
                                assert forall|j: int| 0 <= j < k@ implies #[trigger] rect_side(r, j,
                                    intersection_2d(edge, from, to)) by {
                                    lemma_rect_intersection(r, k@, from, to, j);
                                }
                                lemma_rect_intersection(r, k@, from, to, 0);
                            }
                        }
                    }
                    if to_inside {
                        if !from_inside {
                            let p = edge.line_intersection(from, to);
                            self.add_line(p, output, &mut first_point, Ghost(proper), k);
                        } else if first_point {
                            self.add_line(from, output, &mut first_point, Ghost(proper), k);
                        }
                        self.add_line(to, output, &mut first_point, Ghost(proper), k);
                    } else if from_inside {
                        let p = edge.line_intersection(from, to);
                        self.add_line(p, output, &mut first_point, Ghost(proper), k);
                    }
                    from = to;
                    proof {
                        assert((output@, from, path_start, first_point) == line_step(edge, st1, to));
                    }
                },
                None => {},
            }
            if close_here {
                let ghost out1 = output@;
                output.push(PathEvent::Close);
                path_start = None;
                proof {
                    lemma_push_close(r, out1, k@ + 1);
                }
            }
            proof {
                assert(event == input@[i as int]);
                assert((output@, from, path_start, first_point) == event_step(edge, st0, event));
            }
            i = i + 1;
        }
    }

    /// Appends a line to `to`, or a move to it where a subpath starts.
    fn add_line(&self, to: Vector2I, output: &mut Vec<PathEvent>, first_point: &mut bool, proper: Ghost<bool>, k: Ghost<int>)
        requires
            point_ok(to),
            events_ok(old(output)@),
            proper@ && !*old(first_point) ==> exists|j: int| 0 <= j < old(output)@.len() && is_move(#[trigger] old(output)@[j]),
            proper@ ==> opened(old(output)@) && events_on_sides(self.clip_rect, old(output)@, k@ + 1),
            proper@ ==> forall|j: int| 0 <= j < k@ + 1 ==> #[trigger] rect_side(self.clip_rect, j, to),
        ensures
            final(output)@ == old(output)@.push(
                if *old(first_point) { PathEvent::MoveTo(to) } else { PathEvent::LineTo(to) },
            ),
            !*final(first_point),
            events_ok(final(output)@),
            *old(first_point) || (exists|j: int| 0 <= j < old(output)@.len() && is_move(#[trigger] old(output)@[j]))
                ==> exists|j: int| 0 <= j < final(output)@.len() && is_move(#[trigger] final(output)@[j]),
            proper@ ==> opened(final(output)@) && events_on_sides(self.clip_rect, final(output)@, k@ + 1),
    {
        let ghost out0 = output@;
        if *first_point {
            output.push(PathEvent::MoveTo(to));
            *first_point = false;
            proof {
                assert(is_move(output@[out0.len() as int]));
            }
        } else {
            output.push(PathEvent::LineTo(to));
            proof {
                if exists|j: int| 0 <= j < out0.len() && is_move(#[trigger] out0[j]) {
                    let j = choose|j: int| 0 <= j < out0.len() && is_move(#[trigger] out0[j]);
                    assert(output@[j] == out0[j]);
                }
            }
        }
        proof {
            let out1 = output@;
            assert forall|m: int| 0 <= m < out1.len() && event_end(#[trigger] out1[m]).is_some() implies point_ok(
                event_end(out1[m]).unwrap()) by {
                if m < out0.len() {
                    assert(out1[m] == out0[m]);
                }
            }
            if proper@ {
                assert forall|m: int| 0 <= m < out1.len() && event_end(#[trigger] out1[m]).is_some() && !is_move(out1[m])
                    implies exists|j: int| 0 <= j < m && is_move(#[trigger] out1[j]) by {
                    if m < out0.len() {
                        assert(out1[m] == out0[m]);
                        let j = choose|j: int| 0 <= j < m && is_move(#[trigger] out0[j]);
                        assert(out1[j] == out0[j]);
                    } else {
                        let j = choose|j: int| 0 <= j < out0.len() && is_move(#[trigger] out0[j]);
                        assert(out1[j] == out0[j]);
                    }
                }
                assert forall|m: int, j: int| 0 <= m < out1.len() && 0 <= j < k@ + 1 && event_end(#[trigger] out1[m]).is_some()
                    implies #[trigger] rect_side(self.clip_rect, j, event_end(out1[m]).unwrap()) by {
                    if m < out0.len() {
                        assert(out1[m] == out0[m]);
                    }
                }
            }
        }
    }
}

/// Appending a `Close` keeps the end points and the opening of the events.
proof fn lemma_push_close(r: FixedRect, events: Seq<PathEvent>, n: int)
    ensures
        events_ok(events) ==> events_ok(events.push(PathEvent::Close)),
        opened(events) ==> opened(events.push(PathEvent::Close)),
        events_on_sides(r, events, n) ==> events_on_sides(r, events.push(PathEvent::Close), n),
        forall|j: int| 0 <= j < events.len() && is_move(#[trigger] events[j]) ==> is_move(events.push(PathEvent::Close)[j]),
{
    let e2 = events.push(PathEvent::Close);
    assert forall|m: int| 0 <= m < events.len() implies #[trigger] e2[m] == events[m] by {}
    if opened(events) {
        assert forall|m: int| 0 <= m < e2.len() && event_end(#[trigger] e2[m]).is_some() && !is_move(e2[m])
            implies exists|j: int| 0 <= j < m && is_move(#[trigger] e2[j]) by {
            let j = choose|j: int| 0 <= j < m && is_move(#[trigger] events[j]);
            assert(e2[j] == events[j]);
        }
    }
}


} // verus!
