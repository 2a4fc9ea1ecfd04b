//! Tiling of one path: its segments are cut along tile boundaries into fills, the
//! crossings of tile column lines become backdrop deltas, and the deltas are summed
//! down each column to find the tiles that the path covers entirely.
//!
//! Winding convention: a segment going right counts +1 and one going left -1 for the
//! points below it whose x lies in `[min x, max x)` of the segment. Tile row `r`
//! holds the y coordinates `(r * 4096, (r + 1) * 4096]`, so a point on a row line
//! belongs to the row above it. A tile's backdrop is the winding at its left edge
//! from the segments in the rows above; fills carry the rest: the parts of segments
//! inside the tile, and a horizontal fill along the tile's top edge, from the
//! crossing to the right edge, wherever the path crosses that edge strictly inside
//! the column.

use vstd::prelude::*;
use crate::builder::ObjectBuilder;
use crate::builder::BuiltPath;
use crate::builder::FillRule;
use crate::builder::LineSegmentFixed;
use crate::builder::TilingPathInfo;
use crate::builder::Occluder;
use crate::builder::covers_view_box;
use crate::builder::fills_after_add;
use crate::builder::path_occludes;
use crate::clip::lerp_i32;
use crate::gpu_data::AlphaTileCounters;
use crate::gpu_data::INVALID_ALPHA_TILE;
use crate::scene::Contour;
use crate::tile_map::FixedRect;
use crate::tile_map::Vector2I;
use crate::tile_map::COORD_LIMIT;
use crate::tile_map::coord_ok;
use crate::tile_map::floor_div;
use crate::tile_map::floor_div_i64;
use crate::tile_map::tile_bounds_of;
use crate::tile_map::lemma_coords_of_index;
use crate::tile_map::lemma_index_in_bounds;

verus! {

/// The tile row or column of scene coordinate `v`.
fn tile_of(v: i32) -> (r: i32)
    requires
        coord_ok(v as int),
    ensures
        r as int == floor_div(v as int, 4096),
        -0x4000 <= r <= 0x4000,
{
    proof {
        vstd::arithmetic::div_mod::lemma_div_is_ordered(-0x400_0000, v as int, 4096);
        vstd::arithmetic::div_mod::lemma_div_is_ordered(v as int, 0x400_0000, 4096);
    }
    floor_div_i64(v as i64, 4096) as i32
}

fn min_i32(a: i32, b: i32) -> (r: i32)
    ensures
        r == if a <= b { a } else { b },
{
    if a <= b { a } else { b }
}

fn max_i32(a: i32, b: i32) -> (r: i32)
    ensures
        r == if a >= b { a } else { b },
{
    if a >= b { a } else { b }
}

/// Adds `delta` to a backdrop of the path where that cannot overflow; a delta that
/// would overflow its field is dropped.
fn adjust_backdrop_checked(builder: &mut ObjectBuilder, tile_coords: Vector2I, delta: i8)
    requires
        old(builder).wf(),
    ensures
        final(builder).wf(),
        final(builder).built_path.tiles.rect == old(builder).built_path.tiles.rect,
        final(builder).built_path.occluders == old(builder).built_path.occluders,
        final(builder).built_path.fill_rule == old(builder).built_path.fill_rule,
        final(builder).built_path.clip_tiles == old(builder).built_path.clip_tiles,
        final(builder).bounds == old(builder).bounds,
        final(builder).fills@ == old(builder).fills@,
        forall|i: int| 0 <= i < final(builder).built_path.tiles.data@.len() ==>
            (#[trigger] final(builder).built_path.tiles.data@[i]).alpha_tile_id
                == old(builder).built_path.tiles.data@[i].alpha_tile_id,
{
    let rect = builder.built_path.tiles.rect;
    let ox = tile_coords.x as i64 - rect.origin_x as i64;
    let oy = tile_coords.y as i64 - rect.origin_y as i64;
    if ox < 0 || ox >= rect.width as i64 || oy >= rect.height as i64 {
        return;
    }
    if oy < 0 {
        let b = builder.built_path.data.backdrops[ox as usize];
        if (b as i64 + delta as i64) < i32::MIN as i64 || (b as i64 + delta as i64) > i32::MAX as i64 {
            return;
        }
    } else {
        let index = builder.built_path.tiles.coords_to_index(tile_coords.x, tile_coords.y).unwrap();
        let b = builder.built_path.tiles.data[index].backdrop;
        if (b as i64 + delta as i64) < i8::MIN as i64 || (b as i64 + delta as i64) > i8::MAX as i64 {
            return;
        }
    }
    builder.adjust_alpha_tile_backdrop(tile_coords, delta);
}

/// Adds a fill while alpha tiles remain to be issued.
fn add_fill_if_room(
    builder: &mut ObjectBuilder,
    counters: &mut AlphaTileCounters,
    segment: LineSegmentFixed,
    tile_coords: Vector2I,
)
    requires
        old(builder).wf(),
        old(counters).wf(),
        segment.wf(),
        old(builder).alpha_tiles_consistent(old(counters).issued()),
    ensures
        final(builder).wf(),
        final(counters).wf(),
        final(builder).alpha_tiles_consistent(final(counters).issued()),
        final(builder).built_path.tiles.rect == old(builder).built_path.tiles.rect,
        final(builder).built_path.occluders == old(builder).built_path.occluders,
        final(builder).built_path.fill_rule == old(builder).built_path.fill_rule,
        final(builder).built_path.clip_tiles == old(builder).built_path.clip_tiles,
        final(builder).bounds == old(builder).bounds,
        old(counters).issued().subset_of(final(counters).issued()),
        old(counters).can_issue(0) ==> fills_after_add(
            old(builder).fills@,
            final(builder).fills@,
            final(builder).built_path.tiles.data@,
            old(builder).built_path.tiles.rect,
            segment,
            tile_coords.x as int,
            tile_coords.y as int,
        ),
        !old(counters).can_issue(0) ==> final(builder).fills@ == old(builder).fills@,
{
    if counters.has_room(0) {
        builder.add_fill(counters, segment, tile_coords);
    }
}

pub open spec fn min_int(a: int, b: int) -> int {
    if a <= b { a } else { b }
}

pub open spec fn max_int(a: int, b: int) -> int {
    if a >= b { a } else { b }
}

/// The tile row of scene y coordinate `y`: row `r` holds `(r * 4096, (r + 1) * 4096]`.
fn row_of(y: i32) -> (r: i32)
    requires
        coord_ok(y as int),
    ensures
        r as int == floor_div(y - 1, 4096),
        -0x4001 <= r <= 0x4000,
{
    proof {
        vstd::arithmetic::div_mod::lemma_div_is_ordered(-0x400_0001, y - 1, 4096);
        vstd::arithmetic::div_mod::lemma_div_is_ordered(y - 1, 0x400_0000, 4096);
    }
    floor_div_i64(y as i64 - 1, 4096) as i32
}

/// Cuts the part of a segment that lies in tile column `c`, from `(px0, py0)` to
/// `(px1, py1)` with `px0 <= px1`, into one fill per tile row. A horizontal part on a
/// row line lies on the bottom edge of its tile and covers nothing there.
fn split_column_piece(
    builder: &mut ObjectBuilder,
    counters: &mut AlphaTileCounters,
    c: i32,
    px0: i32,
    py0: i32,
    px1: i32,
    py1: i32,
    rightward: bool,
)
    requires
        old(builder).wf(),
        old(counters).wf(),
        old(builder).alpha_tiles_consistent(old(counters).issued()),
        coord_ok(px0 as int),
        coord_ok(py0 as int),
        coord_ok(px1 as int),
        coord_ok(py1 as int),
        px0 <= px1,
        -0x4000 <= c <= 0x4000,
    ensures
        final(builder).wf(),
        final(counters).wf(),
        final(builder).alpha_tiles_consistent(final(counters).issued()),
        py0 != py1 && old(counters).can_issue(0) && floor_div(min_int(py0 as int, py1 as int), 4096)
            == floor_div(max_int(py0 as int, py1 as int) - 1, 4096) ==> fills_after_add(
            old(builder).fills@,
            final(builder).fills@,
            final(builder).built_path.tiles.data@,
            old(builder).built_path.tiles.rect,
            if rightward {
                LineSegmentFixed { from_x: px0, from_y: py0, to_x: px1, to_y: py1 }
            } else {
                LineSegmentFixed { from_x: px1, from_y: py1, to_x: px0, to_y: py0 }
            },
            c as int,
            floor_div(min_int(py0 as int, py1 as int), 4096),
        ),
        final(builder).built_path.tiles.rect == old(builder).built_path.tiles.rect,
        final(builder).built_path.occluders == old(builder).built_path.occluders,
        final(builder).built_path.fill_rule == old(builder).built_path.fill_rule,
        final(builder).built_path.clip_tiles == old(builder).built_path.clip_tiles,
        final(builder).bounds == old(builder).bounds,
        old(counters).issued().subset_of(final(counters).issued()),
{
    if py0 == py1 {
        if py0 as i64 % 4096 != 0 {
            let piece = if rightward {
                LineSegmentFixed { from_x: px0, from_y: py0, to_x: px1, to_y: py1 }
            } else {
                LineSegmentFixed { from_x: px1, from_y: py1, to_x: px0, to_y: py0 }
            };
            let r = row_of(py0);
            add_fill_if_room(builder, counters, piece, Vector2I { x: c, y: r });
        }
        return;
    }
    let ymin = min_i32(py0, py1);
    let ymax = max_i32(py0, py1);
    let r_start = tile_of(ymin);
    let r_end = row_of(ymax);
    let mut r = r_start;
    let ghost single = old(counters).can_issue(0) && r_start == r_end;
    let ghost expected = if rightward {
        LineSegmentFixed { from_x: px0, from_y: py0, to_x: px1, to_y: py1 }
    } else {
        LineSegmentFixed { from_x: px1, from_y: py1, to_x: px0, to_y: py0 }
    };
    while r <= r_end
        invariant
            builder.wf(),
            counters.wf(),
            builder.alpha_tiles_consistent(counters.issued()),
            single == (old(counters).can_issue(0) && r_start == r_end),
            expected == (if rightward {
                LineSegmentFixed { from_x: px0, from_y: py0, to_x: px1, to_y: py1 }
            } else {
                LineSegmentFixed { from_x: px1, from_y: py1, to_x: px0, to_y: py0 }
            }),
            single && r == r_start ==> builder.fills@ == old(builder).fills@ && *counters == *old(counters),
            single && r > r_start ==> fills_after_add(
                old(builder).fills@,
                builder.fills@,
                builder.built_path.tiles.data@,
                old(builder).built_path.tiles.rect,
                expected,
                c as int,
                r_start as int,
            ),
            r <= r_end + 1,
            builder.built_path.tiles.rect == old(builder).built_path.tiles.rect,
            builder.built_path.occluders == old(builder).built_path.occluders,
            builder.built_path.fill_rule == old(builder).built_path.fill_rule,
            builder.built_path.clip_tiles == old(builder).built_path.clip_tiles,
            old(counters).issued().subset_of(counters.issued()),
            builder.bounds == old(builder).bounds,
            r_start <= r,
            -0x4000 <= r_start,
            r_end <= 0x4000,
            coord_ok(px0 as int),
            coord_ok(py0 as int),
            coord_ok(px1 as int),
            coord_ok(py1 as int),
            py0 != py1,
            ymin < ymax,
            ymin == if py0 <= py1 { py0 } else { py1 },
            ymax == if py0 >= py1 { py0 } else { py1 },
            px0 <= px1,
            -0x4000 <= c <= 0x4000,
            r_start as int == floor_div(ymin as int, 4096),
            r_end as int == floor_div(ymax - 1, 4096),
        decreases r_end + 1 - r,
    {
        proof {
            lemma_row_span(ymin as int, ymax as int, r as int);
        }
        let top = r * 4096;
        let bottom = top + 4096;
        let ylo = max_i32(ymin, top);
        let yhi = min_i32(ymax, bottom);
        let (xa, xb) = if py0 < py1 {
            (
                lerp_i32(px0, px1, (ylo as i64 - py0 as i64), (py1 as i64 - py0 as i64)),
                lerp_i32(px0, px1, (yhi as i64 - py0 as i64), (py1 as i64 - py0 as i64)),
            )
        } else {
            (
                lerp_i32(px0, px1, (py0 as i64 - ylo as i64), (py0 as i64 - py1 as i64)),
                lerp_i32(px0, px1, (py0 as i64 - yhi as i64), (py0 as i64 - py1 as i64)),
            )
        };
        let piece = if rightward == (py0 < py1) {
            LineSegmentFixed { from_x: xa, from_y: ylo, to_x: xb, to_y: yhi }
        } else {
            LineSegmentFixed { from_x: xb, from_y: yhi, to_x: xa, to_y: ylo }
        };
        proof {
            if single {
                let den = if py0 < py1 { py1 - py0 } else { py0 - py1 };
                let d = px1 - px0;
                vstd::arithmetic::div_mod::lemma_div_multiples_vanish(d as int, den as int);
                assert(d * den == den * d) by (nonlinear_arith);
                assert(d * 0 == 0);
                assert(top <= ymin) by {
                    vstd::arithmetic::div_mod::lemma_fundamental_div_mod(ymin as int, 4096);
                }
                assert(ymax <= bottom) by {
                    vstd::arithmetic::div_mod::lemma_fundamental_div_mod(ymax - 1, 4096);
                }
                assert(ylo == ymin && yhi == ymax);
                assert(piece == expected);
            }
        }
        add_fill_if_room(builder, counters, piece, Vector2I { x: c, y: r });
        r = r + 1;
    }
}

/// Row `r` between the row of `ymin` and the row holding `ymax` meets `[ymin, ymax]`.
proof fn lemma_row_span(ymin: int, ymax: int, r: int)
    requires
        ymin / 4096 <= r <= (ymax - 1) / 4096,
        ymin < ymax,
    ensures
        r * 4096 < ymax,
        ymin < (r + 1) * 4096,
{
    vstd::arithmetic::div_mod::lemma_fundamental_div_mod(ymax - 1, 4096);
    vstd::arithmetic::div_mod::lemma_fundamental_div_mod(ymin, 4096);
    assert(r * 4096 <= ((ymax - 1) / 4096) * 4096) by (nonlinear_arith)
        requires
            r <= (ymax - 1) / 4096,
    ;
    assert((ymin / 4096) * 4096 <= r * 4096) by (nonlinear_arith)
        requires
            ymin / 4096 <= r,
    ;
}

/// Adds the top-edge fills of the row lines that a segment crosses strictly inside
/// a tile column: a fill from the crossing to the tile's right edge, rightward where
/// the path crosses upward and leftward where it crosses downward.
fn add_row_crossings(builder: &mut ObjectBuilder, counters: &mut AlphaTileCounters, segment: LineSegmentFixed)
    requires
        old(builder).wf(),
        old(counters).wf(),
        segment.wf(),
        segment.from_y != segment.to_y,
        old(builder).alpha_tiles_consistent(old(counters).issued()),
    ensures
        final(builder).wf(),
        final(counters).wf(),
        final(builder).alpha_tiles_consistent(final(counters).issued()),
        final(builder).built_path.tiles.rect == old(builder).built_path.tiles.rect,
        final(builder).built_path.occluders == old(builder).built_path.occluders,
        final(builder).built_path.fill_rule == old(builder).built_path.fill_rule,
        final(builder).built_path.clip_tiles == old(builder).built_path.clip_tiles,
        final(builder).bounds == old(builder).bounds,
        old(counters).issued().subset_of(final(counters).issued()),
        floor_div(min_int(segment.from_y as int, segment.to_y as int) - 1, 4096) == floor_div(
            max_int(segment.from_y as int, segment.to_y as int) - 1,
            4096,
        ) ==> final(builder).fills@ == old(builder).fills@ && final(builder).built_path.tiles.data@
            == old(builder).built_path.tiles.data@ && *final(counters) == *old(counters),
{
    let upward = segment.from_y > segment.to_y;
    let (tx, ty, bx, by) = if upward {
        (segment.to_x, segment.to_y, segment.from_x, segment.from_y)
    } else {
        (segment.from_x, segment.from_y, segment.to_x, segment.to_y)
    };
    let first = row_of(ty) + 1;
    let last = row_of(by);
    let mut r = first;
    while r <= last
        invariant
            builder.wf(),
            counters.wf(),
            builder.alpha_tiles_consistent(counters.issued()),
            builder.built_path.tiles.rect == old(builder).built_path.tiles.rect,
            builder.built_path.occluders == old(builder).built_path.occluders,
            builder.built_path.fill_rule == old(builder).built_path.fill_rule,
            builder.built_path.clip_tiles == old(builder).built_path.clip_tiles,
            old(counters).issued().subset_of(counters.issued()),
            builder.bounds == old(builder).bounds,
            coord_ok(tx as int),
            coord_ok(ty as int),
            coord_ok(bx as int),
            coord_ok(by as int),
            ty < by,
            first <= r,
            first as int == floor_div(ty - 1, 4096) + 1,
            last as int == floor_div(by - 1, 4096),
            last <= 0x4000,
            first > last ==> builder.fills@ == old(builder).fills@ && builder.built_path.tiles.data@
                == old(builder).built_path.tiles.data@ && *counters == *old(counters),
        decreases last + 1 - r,
    {
        proof {
            lemma_line_between(ty as int, by as int, r as int);
        }
        let line_y = r * 4096;
        let a = lerp_i32(tx, bx, line_y as i64 - ty as i64, by as i64 - ty as i64);
        let c = tile_of(a);
        let left = c * 4096;
        if a > left {
            proof {
                lemma_right_edge(a as int, c as int);
            }
            let right_edge = left + 4096;
            let aux = if upward {
                LineSegmentFixed { from_x: a, from_y: line_y, to_x: right_edge, to_y: line_y }
            } else {
                LineSegmentFixed { from_x: right_edge, from_y: line_y, to_x: a, to_y: line_y }
            };
            add_fill_if_room(builder, counters, aux, Vector2I { x: c, y: r });
        }
        r = r + 1;
    }
}

/// A row line after the row of `ty` and within the row of `by` lies in `[ty, by)`.
proof fn lemma_line_between(ty: int, by: int, r: int)
    requires
        (ty - 1) / 4096 + 1 <= r <= (by - 1) / 4096,
        coord_ok(ty),
        coord_ok(by),
    ensures
        ty <= r * 4096 < by,
        coord_ok(r * 4096),
{
    vstd::arithmetic::div_mod::lemma_fundamental_div_mod(ty - 1, 4096);
    vstd::arithmetic::div_mod::lemma_fundamental_div_mod(by - 1, 4096);
    assert(((ty - 1) / 4096 + 1) * 4096 <= r * 4096) by (nonlinear_arith)
        requires
            (ty - 1) / 4096 + 1 <= r,
    ;
    assert(r * 4096 <= ((by - 1) / 4096) * 4096) by (nonlinear_arith)
        requires
            r <= (by - 1) / 4096,
    ;
}

/// The right edge of the column of a coordinate strictly inside it stays in range.
proof fn lemma_right_edge(a: int, c: int)
    requires
        coord_ok(a),
        c == a / 4096,
        a > c * 4096,
    ensures
        (c + 1) * 4096 <= COORD_LIMIT,
        -COORD_LIMIT <= c * 4096,
{
    vstd::arithmetic::div_mod::lemma_fundamental_div_mod(a, 4096);
    vstd::arithmetic::div_mod::lemma_div_is_ordered(a, 0x400_0000, 4096);
    vstd::arithmetic::div_mod::lemma_div_is_ordered(-0x400_0000, a, 4096);
}

/// A sloped segment that lies in the interior of one tile row and within one tile
/// column, its top end strictly below the row's top line.
pub open spec fn single_tile_segment(seg: LineSegmentFixed) -> bool {
    let lx = min_int(seg.from_x as int, seg.to_x as int);
    let rx = max_int(seg.from_x as int, seg.to_x as int);
    let ymin = min_int(seg.from_y as int, seg.to_y as int);
    let ymax = max_int(seg.from_y as int, seg.to_y as int);
    &&& seg.from_x != seg.to_x
    &&& seg.from_y != seg.to_y
    &&& floor_div(lx, 4096) == floor_div(rx - 1, 4096)
    &&& floor_div(ymin, 4096) == floor_div(ymax - 1, 4096)
    &&& ymin % 4096 != 0
}

/// The tile of a single-tile segment.
pub open spec fn segment_tile_x(seg: LineSegmentFixed) -> int {
    floor_div(min_int(seg.from_x as int, seg.to_x as int), 4096)
}

pub open spec fn segment_tile_y(seg: LineSegmentFixed) -> int {
    floor_div(min_int(seg.from_y as int, seg.to_y as int), 4096)
}

/// Tiles one segment: a fill for each tile that it crosses, a top-edge fill for each
/// row line that it crosses inside a column, and a backdrop delta below each tile
/// column line that it crosses.
pub fn process_line_segment(
    builder: &mut ObjectBuilder,
    counters: &mut AlphaTileCounters,
    segment: LineSegmentFixed,
)
    requires
        old(builder).wf(),
        old(counters).wf(),
        segment.wf(),
        old(builder).alpha_tiles_consistent(old(counters).issued()),
    ensures
        final(builder).wf(),
        final(counters).wf(),
        final(builder).alpha_tiles_consistent(final(counters).issued()),
        final(builder).built_path.tiles.rect == old(builder).built_path.tiles.rect,
        final(builder).built_path.occluders == old(builder).built_path.occluders,
        final(builder).built_path.fill_rule == old(builder).built_path.fill_rule,
        final(builder).built_path.clip_tiles == old(builder).built_path.clip_tiles,
        final(builder).bounds == old(builder).bounds,
        old(counters).issued().subset_of(final(counters).issued()),
        single_tile_segment(segment) && old(counters).can_issue(0) ==> fills_after_add(
            old(builder).fills@,
            final(builder).fills@,
            final(builder).built_path.tiles.data@,
            old(builder).built_path.tiles.rect,
            segment,
            segment_tile_x(segment),
            segment_tile_y(segment),
        ),
{
    let ghost single = single_tile_segment(segment) && old(counters).can_issue(0);
    if segment.from_y != segment.to_y {
        proof {
            if single {
                let ymin = min_int(segment.from_y as int, segment.to_y as int);
                vstd::arithmetic::div_mod::lemma_fundamental_div_mod(ymin, 4096);
                vstd::arithmetic::div_mod::lemma_fundamental_div_mod(ymin - 1, 4096);
                assert(floor_div(ymin - 1, 4096) == floor_div(ymin, 4096));
            }
        }
        add_row_crossings(builder, counters, segment);
    }
    if segment.from_x == segment.to_x {
        return;
    }
    let rightward = segment.from_x < segment.to_x;
    let sign: i8 = if rightward { 1 } else { -1 };
    let (lx, ly, rx, ry) = if rightward {
        (segment.from_x, segment.from_y, segment.to_x, segment.to_y)
    } else {
        (segment.to_x, segment.to_y, segment.from_x, segment.from_y)
    };
    let c_start = tile_of(lx);
    let c_end = tile_of(rx - 1);
    proof {
        vstd::arithmetic::div_mod::lemma_div_is_ordered(lx as int, rx - 1, 4096);
    }
    let mut c = c_start;
    while c <= c_end
        invariant
            builder.wf(),
            counters.wf(),
            builder.alpha_tiles_consistent(counters.issued()),
            builder.built_path.tiles.rect == old(builder).built_path.tiles.rect,
            builder.built_path.occluders == old(builder).built_path.occluders,
            builder.built_path.fill_rule == old(builder).built_path.fill_rule,
            builder.built_path.clip_tiles == old(builder).built_path.clip_tiles,
            old(counters).issued().subset_of(counters.issued()),
            builder.bounds == old(builder).bounds,
            coord_ok(lx as int),
            coord_ok(ly as int),
            coord_ok(rx as int),
            coord_ok(ry as int),
            lx < rx,
            -0x4000 <= c_start <= c_end <= 0x4000,
            c_start <= c <= c_end + 1,
            c_start as int == floor_div(lx as int, 4096),
            c_end as int == floor_div(rx - 1, 4096),
            rightward == (segment.from_x < segment.to_x),
            sign == (if rightward { 1i8 } else { -1i8 }),
            (lx, ly, rx, ry) == (if rightward {
                (segment.from_x, segment.from_y, segment.to_x, segment.to_y)
            } else {
                (segment.to_x, segment.to_y, segment.from_x, segment.from_y)
            }),
            single == (single_tile_segment(segment) && old(counters).can_issue(0)),
            single && c == c_start ==> builder.fills@ == old(builder).fills@ && *counters == *old(counters),
            single && c > c_start ==> fills_after_add(
                old(builder).fills@,
                builder.fills@,
                builder.built_path.tiles.data@,
                old(builder).built_path.tiles.rect,
                segment,
                segment_tile_x(segment),
                segment_tile_y(segment),
            ),
        decreases c_end + 1 - c,
    {
        let left = c * 4096;
        let right = left + 4096;
        let px0 = max_i32(lx, left);
        let px1 = min_i32(rx, right);
        proof {
            if single {
                vstd::arithmetic::div_mod::lemma_fundamental_div_mod(lx as int, 4096);
                vstd::arithmetic::div_mod::lemma_fundamental_div_mod(rx - 1, 4096);
                assert(px0 == lx && px1 == rx);
            }
        }
        if px0 <= px1 {
            let py0 = lerp_i32(ly, ry, px0 as i64 - lx as i64, rx as i64 - lx as i64);
            let py1 = lerp_i32(ly, ry, px1 as i64 - lx as i64, rx as i64 - lx as i64);
            proof {
                if single {
                    let den = rx - lx;
                    let d = ry - ly;
                    vstd::arithmetic::div_mod::lemma_div_multiples_vanish(d as int, den as int);
                    assert(d * den == den * d) by (nonlinear_arith);
                    assert(d * 0 == 0);
                    assert(py0 == ly && py1 == ry);
                }
            }
            if px0 == left {
                let row = row_of(py0);
                let ghost before = *builder;
                adjust_backdrop_checked(builder, Vector2I { x: c, y: row + 1 }, sign);
                proof {
                    crate::builder::lemma_consistent_same_ids(&before, builder, counters.issued());
                }
            }
            split_column_piece(builder, counters, c, px0, py0, px1, py1, rightward);
        }
        c = c + 1;
    }
}

/// `v` saturated to the range of `i8`.
pub open spec fn saturate_i8(v: int) -> i8 {
    if v < i8::MIN { i8::MIN } else if v > i8::MAX { i8::MAX } else { v as i8 }
}

/// Sum of the backdrop deltas of rows `0..=y` of column `x` of a row-major map `w` wide.
pub open spec fn column_delta_sum(data: Seq<crate::gpu_data::TileObjectPrimitive>, w: int, x: int, y: int) -> int
    decreases y + 1,
{
    if y < 0 { 0 } else { column_delta_sum(data, w, x, y - 1) + data[y * w + x].backdrop }
}

/// Whether a tile with winding `backdrop` is inside the path under `rule`.
pub open spec fn winding_covers(backdrop: int, rule: FillRule) -> bool {
    match rule {
        FillRule::Winding => backdrop != 0,
        FillRule::EvenOdd => backdrop % 2 != 0,
    }
}

/// The coordinates of the solid tiles among the first `n` of `data`: no alpha tile,
/// and covered by their winding.
pub open spec fn solid_coords(data: Seq<crate::gpu_data::TileObjectPrimitive>, rule: FillRule, n: int) -> Seq<Vector2I>
    decreases n,
{
    if n <= 0 {
        Seq::empty()
    } else {
        let rest = solid_coords(data, rule, n - 1);
        let t = data[n - 1];
        if t.alpha_tile_id.0 == INVALID_ALPHA_TILE && winding_covers(t.backdrop as int, rule) {
            rest.push(Vector2I { x: t.tile_x as i32, y: t.tile_y as i32 })
        } else {
            rest
        }
    }
}

/// Sums the backdrop deltas down each tile column, starting from the column's
/// backdrop above the tile map: afterwards each tile holds its winding, saturated to
/// 8 bits.
pub fn propagate_backdrops(built_path: &mut BuiltPath)
    requires
        old(built_path).wf(),
    ensures
        final(built_path).wf(),
        final(built_path).tiles.rect == old(built_path).tiles.rect,
        final(built_path).data.backdrops@ == old(built_path).data.backdrops@,
        final(built_path).occluders == old(built_path).occluders,
        final(built_path).clip_tiles == old(built_path).clip_tiles,
        final(built_path).fill_rule == old(built_path).fill_rule,
        final(built_path).tiles.data@.len() == old(built_path).tiles.data@.len(),
        forall|i: int| 0 <= i < final(built_path).tiles.data@.len() ==> {
            let rect = old(built_path).tiles.rect;
            let x = i % rect.width as int;
            let y = i / rect.width as int;
            let t = old(built_path).tiles.data@[i];
            #[trigger] final(built_path).tiles.data@[i] == crate::gpu_data::TileObjectPrimitive {
                backdrop: saturate_i8(
                    old(built_path).data.backdrops@[x] + column_delta_sum(old(built_path).tiles.data@, rect.width as int, x, y),
                ),
                ..t
            }
        },
{
    let ghost old_data = built_path.tiles.data@;
    let ghost rect = built_path.tiles.rect;
    let w = built_path.tiles.rect.width as usize;
    let h = built_path.tiles.rect.height as usize;
    proof {
        crate::tile_map::lemma_area_fits(rect);
    }
    let mut x: usize = 0;
    while x < w
        invariant
            built_path.wf(),
            built_path.tiles.rect == rect,
            built_path.data.backdrops@ == old(built_path).data.backdrops@,
            built_path.occluders == old(built_path).occluders,
            built_path.clip_tiles == old(built_path).clip_tiles,
            built_path.fill_rule == old(built_path).fill_rule,
            old_data == old(built_path).tiles.data@,
            rect == old(built_path).tiles.rect,
            w == rect.width,
            h == rect.height,
            rect.area() <= 0x4000_0000,
            x <= w,
            built_path.tiles.data@.len() == old_data.len(),
            forall|i: int| 0 <= i < old_data.len() ==> {
                let t = old_data[i];
                #[trigger] built_path.tiles.data@[i] == if i % (w as int) < x {
                    crate::gpu_data::TileObjectPrimitive {
                        backdrop: saturate_i8(
                            old(built_path).data.backdrops@[i % (w as int)] + column_delta_sum(old_data, w as int, i % (w as int), i / (w as int)),
                        ),
                        ..t
                    }
                } else {
                    t
                }
            },
        decreases w - x,
    {
        let mut running: i64 = built_path.data.backdrops[x] as i64;
        let mut y: usize = 0;
        while y < h
            invariant
                built_path.wf(),
                built_path.tiles.rect == rect,
                built_path.data.backdrops@ == old(built_path).data.backdrops@,
                built_path.occluders == old(built_path).occluders,
                built_path.clip_tiles == old(built_path).clip_tiles,
                built_path.fill_rule == old(built_path).fill_rule,
                old_data == old(built_path).tiles.data@,
                w == rect.width,
                h == rect.height,
                rect.area() <= 0x4000_0000,
                x < w,
                y <= h,
                built_path.tiles.data@.len() == old_data.len(),
                running == old(built_path).data.backdrops@[x as int] + column_delta_sum(old_data, w as int, x as int, y - 1),
                -0x8000_0000 - 128 * y <= running <= 0x8000_0000 + 128 * y,
                forall|i: int| 0 <= i < old_data.len() ==> {
                    let t = old_data[i];
                    #[trigger] built_path.tiles.data@[i] == if i % (w as int) < x || (i % (w as int) == x && i / (w as int) < y) {
                        crate::gpu_data::TileObjectPrimitive {
                            backdrop: saturate_i8(
                                old(built_path).data.backdrops@[i % (w as int)] + column_delta_sum(old_data, w as int, i % (w as int), i / (w as int)),
                            ),
                            ..t
                        }
                    } else {
                        t
                    }
                },
            decreases h - y,
        {
            proof {
                lemma_index_in_bounds(x as int, y as int, w as int, h as int);
                assert((w as int) * (h as int) == rect.area());
                crate::builder::lemma_split_index(y as int, x as int, w as int);
            }
            let index = y * w + x;
            let ghost prev = built_path.tiles.data@;
            let tile = built_path.tiles.data[index];
            running = running + tile.backdrop as i64;
            let b: i8 = if running < -128 { -128 } else if running > 127 { 127 } else { running as i8 };
            built_path.tiles.data.set(index, crate::gpu_data::TileObjectPrimitive { backdrop: b, ..tile });
            proof {
                assert forall|i: int| 0 <= i < built_path.tiles.data@.len() implies {
                    &&& (#[trigger] built_path.tiles.data@[i]).tile_x == built_path.tiles.rect.x_of(i)
                    &&& built_path.tiles.data@[i].tile_y == built_path.tiles.rect.y_of(i)
                } by {
                    assert(prev[i].tile_x == rect.x_of(i));
                }
                assert forall|i: int| 0 <= i < old_data.len() implies {
                    let t = old_data[i];
                    #[trigger] built_path.tiles.data@[i] == if i % (w as int) < x || (i % (w as int) == x && i / (w as int) < y + 1) {
                        crate::gpu_data::TileObjectPrimitive {
                            backdrop: saturate_i8(
                                old(built_path).data.backdrops@[i % (w as int)] + column_delta_sum(old_data, w as int, i % (w as int), i / (w as int)),
                            ),
                            ..t
                        }
                    } else {
                        t
                    }
                } by {
                    if i == index as int {
                        assert(i % (w as int) == x && i / (w as int) == y);
                    } else if i % (w as int) == x && i / (w as int) == y {
                        lemma_coords_of_index(i, w as int, h as int);
                        assert(i == (y as int) * (w as int) + (x as int));
                    }
                }
            }
            y = y + 1;
        }
        proof {
            assert forall|i: int| 0 <= i < old_data.len() implies #[trigger] (i / (w as int)) < y by {
                lemma_coords_of_index(i, w as int, h as int);
            }
        }
        x = x + 1;
    }
}

/// Records the solid tiles of a path as occluders, if the path occludes.
pub fn collect_occluders(built_path: &mut BuiltPath)
    requires
        old(built_path).wf(),
        old(built_path).occluders.is_some() ==> old(built_path).occluders.unwrap()@.len() == 0,
    ensures
        final(built_path).wf(),
        final(built_path).tiles == old(built_path).tiles,
        final(built_path).data.backdrops@ == old(built_path).data.backdrops@,
        final(built_path).clip_tiles == old(built_path).clip_tiles,
        final(built_path).fill_rule == old(built_path).fill_rule,
        final(built_path).occluders.is_some() == old(built_path).occluders.is_some(),
        final(built_path).occluders.is_some() ==> final(built_path).occluders.unwrap()@.map_values(|o: Occluder| o.coords)
            == solid_coords(old(built_path).tiles.data@, old(built_path).fill_rule, old(built_path).tiles.data@.len() as int),
{
    if built_path.occluders.is_none() {
        return;
    }
    let n = built_path.tiles.data.len();
    let rule = built_path.fill_rule;
    let mut found: Vec<Occluder> = Vec::new();
    let mut i: usize = 0;
    while i < n
        invariant
            n == built_path.tiles.data@.len(),
            rule == built_path.fill_rule,
            i <= n,
            found@.map_values(|o: Occluder| o.coords) == solid_coords(built_path.tiles.data@, rule, i as int),
        decreases n - i,
    {
        let t = built_path.tiles.data[i];
        let covered = match rule {
            FillRule::Winding => t.backdrop != 0,
            FillRule::EvenOdd => t.backdrop % 2 != 0,
        };
        let ghost before = found@;
        if t.alpha_tile_id.0 == 0xffff_ffff && covered {
            found.push(Occluder { coords: Vector2I { x: t.tile_x as i32, y: t.tile_y as i32 } });
            proof {
                assert(found@.map_values(|o: Occluder| o.coords) =~= before.map_values(|o: Occluder| o.coords).push(
                    Vector2I { x: t.tile_x as i32, y: t.tile_y as i32 }));
            }
        }
        i = i + 1;
    }
    built_path.occluders = Some(found);
}

/// Every point of the outline is within the supported coordinate range.
pub open spec fn outline_wf(outline: Seq<Contour>) -> bool {
    forall|c: int, k: int| 0 <= c < outline.len() && 0 <= k < outline[c].points@.len() ==> {
        &&& coord_ok((#[trigger] outline[c].points@[k]).x as int)
        &&& coord_ok(outline[c].points@[k].y as int)
    }
}

/// `inner` lies within `outer`.
pub open spec fn rect_within(inner: FixedRect, outer: FixedRect) -> bool {
    outer.min_x <= inner.min_x && inner.max_x <= outer.max_x && outer.min_y <= inner.min_y
        && inner.max_y <= outer.max_y
}

/// Point `k` of contour `c` of the outline exists and lies in the view box.
pub open spec fn in_view(outline: Seq<Contour>, c: int, k: int, view_box: FixedRect) -> bool {
    &&& 0 <= c < outline.len()
    &&& 0 <= k < outline[c].points@.len()
    &&& view_box.min_x <= outline[c].points@[k].x <= view_box.max_x
    &&& view_box.min_y <= outline[c].points@[k].y <= view_box.max_y
}

/// Some point of the outline lies in the view box.
pub open spec fn any_in_view(outline: Seq<Contour>, view_box: FixedRect) -> bool {
    exists|c: int, k: int| #[trigger] in_view(outline, c, k, view_box)
}

/// `r` is the bounding box of the outline's points that lie in the view box: each
/// bound is attained by such a point and every such point lies within it; where
/// there is none it is the empty rectangle at the view box's origin.
pub open spec fn is_outline_bounds(outline: Seq<Contour>, view_box: FixedRect, r: FixedRect) -> bool {
    &&& r.wf()
    &&& rect_within(r, view_box)
    &&& forall|c: int, k: int| #[trigger] in_view(outline, c, k, view_box) ==> {
        let p = outline[c].points@[k];
        r.min_x <= p.x <= r.max_x && r.min_y <= p.y <= r.max_y
    }
    &&& any_in_view(outline, view_box) ==> (exists|c: int, k: int| #[trigger] in_view(outline, c, k, view_box)
        && outline[c].points@[k].x == r.min_x)
    &&& any_in_view(outline, view_box) ==> (exists|c: int, k: int| #[trigger] in_view(outline, c, k, view_box)
        && outline[c].points@[k].x == r.max_x)
    &&& any_in_view(outline, view_box) ==> (exists|c: int, k: int| #[trigger] in_view(outline, c, k, view_box)
        && outline[c].points@[k].y == r.min_y)
    &&& any_in_view(outline, view_box) ==> (exists|c: int, k: int| #[trigger] in_view(outline, c, k, view_box)
        && outline[c].points@[k].y == r.max_y)
    &&& !any_in_view(outline, view_box) ==> r == (FixedRect {
        min_x: view_box.min_x,
        min_y: view_box.min_y,
        max_x: view_box.min_x,
        max_y: view_box.min_y,
    })
}

/// The bounding box of the outline's points that lie in the view box: each bound is
/// attained by such a point, every such point lies within it, and where there is none
/// the result is the empty rectangle at the view box's origin.
pub fn outline_bounds_in(outline: &Vec<Contour>, view_box: FixedRect) -> (r: FixedRect)
    requires
        outline_wf(outline@),
        view_box.wf(),
    ensures
        r.wf(),
        rect_within(r, view_box),
        is_outline_bounds(outline@, view_box, r),
{
    let mut min_x = view_box.max_x;
    let mut min_y = view_box.max_y;
    let mut max_x = view_box.min_x;
    let mut max_y = view_box.min_y;
    let mut found = false;
    let ghost mut w0: (int, int) = (0, 0);
    let ghost mut w1: (int, int) = (0, 0);
    let ghost mut w2: (int, int) = (0, 0);
    let ghost mut w3: (int, int) = (0, 0);
    let mut c: usize = 0;
    while c < outline.len()
        invariant
            outline_wf(outline@),
            view_box.wf(),
            c <= outline@.len(),
            view_box.min_x <= min_x <= view_box.max_x,
            view_box.min_y <= min_y <= view_box.max_y,
            view_box.min_x <= max_x <= view_box.max_x,
            view_box.min_y <= max_y <= view_box.max_y,
            forall|c2: int, k: int| #[trigger] in_view(outline@, c2, k, view_box) && c2 < c ==> {
                let p = outline@[c2].points@[k];
                min_x <= p.x <= max_x && min_y <= p.y <= max_y
            },
            found <==> exists|c2: int, k: int| #[trigger] in_view(outline@, c2, k, view_box) && c2 < c,
            !found ==> min_x == view_box.max_x && min_y == view_box.max_y && max_x == view_box.min_x
                && max_y == view_box.min_y,
            found ==> in_view(outline@, w0.0, w0.1, view_box) && outline@[w0.0].points@[w0.1].x == min_x,
            found ==> in_view(outline@, w1.0, w1.1, view_box) && outline@[w1.0].points@[w1.1].x == max_x,
            found ==> in_view(outline@, w2.0, w2.1, view_box) && outline@[w2.0].points@[w2.1].y == min_y,
            found ==> in_view(outline@, w3.0, w3.1, view_box) && outline@[w3.0].points@[w3.1].y == max_y,
        decreases outline@.len() - c,
    {
        let points = &outline[c].points;
        let mut k: usize = 0;
        while k < points.len()
            invariant
                view_box.wf(),
                c < outline@.len(),
                points == &outline@[c as int].points,
                k <= points@.len(),
                view_box.min_x <= min_x <= view_box.max_x,
                view_box.min_y <= min_y <= view_box.max_y,
                view_box.min_x <= max_x <= view_box.max_x,
                view_box.min_y <= max_y <= view_box.max_y,
                forall|c2: int, k2: int| #[trigger] in_view(outline@, c2, k2, view_box) && (c2 < c || (c2 == c && k2 < k)) ==> {
                    let p = outline@[c2].points@[k2];
                    min_x <= p.x <= max_x && min_y <= p.y <= max_y
                },
                found <==> exists|c2: int, k2: int| #[trigger] in_view(outline@, c2, k2, view_box) && (c2 < c || (c2 == c && k2 < k)),
                !found ==> min_x == view_box.max_x && min_y == view_box.max_y && max_x == view_box.min_x
                    && max_y == view_box.min_y,
                found ==> in_view(outline@, w0.0, w0.1, view_box) && outline@[w0.0].points@[w0.1].x == min_x,
                found ==> in_view(outline@, w1.0, w1.1, view_box) && outline@[w1.0].points@[w1.1].x == max_x,
                found ==> in_view(outline@, w2.0, w2.1, view_box) && outline@[w2.0].points@[w2.1].y == min_y,
                found ==> in_view(outline@, w3.0, w3.1, view_box) && outline@[w3.0].points@[w3.1].y == max_y,
            decreases points@.len() - k,
        {
            let p = points[k];
            let ghost here = (c as int, k as int);
            if view_box.min_x <= p.x && p.x <= view_box.max_x && view_box.min_y <= p.y && p.y <= view_box.max_y {
                proof {
                    assert(in_view(outline@, c as int, k as int, view_box));
                }
                if !found || p.x < min_x {
                    min_x = p.x;
                    proof { w0 = here; }
                }
                if !found || p.x > max_x {
                    max_x = p.x;
                    proof { w1 = here; }
                }
                if !found || p.y < min_y {
                    min_y = p.y;
                    proof { w2 = here; }
                }
                if !found || p.y > max_y {
                    max_y = p.y;
                    proof { w3 = here; }
                }
                found = true;
            }
            proof {
                assert forall|c2: int, k2: int| #[trigger] in_view(outline@, c2, k2, view_box) && (c2 < c || (c2 == c && k2 < k + 1))
                    implies {
                    let q = outline@[c2].points@[k2];
                    min_x <= q.x <= max_x && min_y <= q.y <= max_y
                } by {
                    if c2 == c && k2 == k {
                        assert(outline@[c2].points@[k2] == p);
                    }
                }
            }
            k = k + 1;
        }
        c = c + 1;
    }
    if min_x > max_x {
        min_x = max_x;
    }
    if min_y > max_y {
        min_y = max_y;
    }
    proof {
        assert forall|c2: int, k2: int| #[trigger] in_view(outline@, c2, k2, view_box) implies c2 < c by {}
    }
    FixedRect { min_x, min_y, max_x, max_y }
}

/// Tiles a path: builds its tile map over its bounds within the view box (or the
/// whole view box, where its blend mode needs it), adds the fills and backdrop deltas
/// of each edge of each closed contour, sums the backdrops down the columns, and
/// records the solid tiles as occluders if the path occludes.
pub fn tile_path(
    counters: &mut AlphaTileCounters,
    path_id: u32,
    outline: &Vec<Contour>,
    fill_rule: FillRule,
    view_box: FixedRect,
    tiling_path_info: &TilingPathInfo,
) -> (r: ObjectBuilder)
    requires
        old(counters).wf(),
        outline_wf(outline@),
        view_box.wf(),
    ensures
        r.wf(),
        final(counters).wf(),
        old(counters).issued().subset_of(final(counters).issued()),
        rect_within(r.bounds, view_box),
        is_outline_bounds(outline@, view_box, r.bounds),
        r.built_path.tiles.rect == tile_bounds_of(
            if covers_view_box(*tiling_path_info) { view_box } else { r.bounds },
        ),
        r.built_path.fill_rule == fill_rule,
        r.built_path.clip_tiles.is_some() == crate::builder::has_clip(*tiling_path_info),
        r.alpha_tiles_consistent(final(counters).issued()),
        r.built_path.occluders.is_some() == path_occludes(*tiling_path_info),
        r.built_path.occluders.is_some() ==> r.built_path.occluders.unwrap()@.map_values(|o: Occluder| o.coords)
            == solid_coords(r.built_path.tiles.data@, fill_rule, r.built_path.tiles.data@.len() as int),
        forall|i: int| 0 <= i < r.built_path.tiles.data@.len() ==> tile_bounds_of(view_box).contains(
            (#[trigger] r.built_path.tiles.data@[i]).tile_x as int,
            r.built_path.tiles.data@[i].tile_y as int,
        ),
{
    let bounds = outline_bounds_in(outline, view_box);
    let mut builder = ObjectBuilder::new(path_id, bounds, view_box, fill_rule, tiling_path_info);
    let ghost issued0 = counters.issued();
    let mut c: usize = 0;
    while c < outline.len()
        invariant
            outline_wf(outline@),
            c <= outline@.len(),
            builder.wf(),
            counters.wf(),
            builder.alpha_tiles_consistent(counters.issued()),
            issued0 == old(counters).issued(),
            issued0.subset_of(counters.issued()),
            builder.bounds == bounds,
            builder.built_path.tiles.rect == tile_bounds_of(
                if covers_view_box(*tiling_path_info) { view_box } else { bounds },
            ),
            builder.built_path.fill_rule == fill_rule,
            builder.built_path.clip_tiles.is_some() == crate::builder::has_clip(*tiling_path_info),
            builder.built_path.occluders.is_some() == path_occludes(*tiling_path_info),
            builder.built_path.occluders.is_some() ==> builder.built_path.occluders.unwrap()@.len() == 0,
        decreases outline@.len() - c,
    {
        let points = &outline[c].points;
        let n = points.len();
        let mut k: usize = 0;
        while k < n
            invariant
                outline_wf(outline@),
                c < outline@.len(),
                points == &outline@[c as int].points,
                n == points@.len(),
                k <= n,
                builder.wf(),
                counters.wf(),
                builder.alpha_tiles_consistent(counters.issued()),
                issued0.subset_of(counters.issued()),
                builder.bounds == bounds,
                builder.built_path.tiles.rect == tile_bounds_of(
                    if covers_view_box(*tiling_path_info) { view_box } else { bounds },
                ),
                builder.built_path.fill_rule == fill_rule,
                builder.built_path.clip_tiles.is_some() == crate::builder::has_clip(*tiling_path_info),
                builder.built_path.occluders.is_some() == path_occludes(*tiling_path_info),
                builder.built_path.occluders.is_some() ==> builder.built_path.occluders.unwrap()@.len() == 0,
            decreases n - k,
        {
            let from = points[k];
            let to = if k + 1 < n { points[k + 1] } else { points[0] };
            proof {
                assert(coord_ok(outline@[c as int].points@[k as int].x as int));
                assert(coord_ok(outline@[c as int].points@[k as int].y as int));
                let j = if k + 1 < n { k + 1 } else { 0 };
                assert(coord_ok(outline@[c as int].points@[j as int].x as int));
                assert(coord_ok(outline@[c as int].points@[j as int].y as int));
            }
            let ghost before = counters.issued();
            process_line_segment(
                &mut builder,
                counters,
                LineSegmentFixed { from_x: from.x, from_y: from.y, to_x: to.x, to_y: to.y },
            );
            k = k + 1;
        }
        c = c + 1;
    }
    let ghost before_sums = builder;
    propagate_backdrops(&mut builder.built_path);
    proof {
        crate::builder::lemma_consistent_same_ids(&before_sums, &builder, counters.issued());
    }
    let ghost before_occluders = builder;
    collect_occluders(&mut builder.built_path);
    proof {
        crate::builder::lemma_consistent_same_ids(&before_occluders, &builder, counters.issued());
    }
    proof {
        let rect = builder.built_path.tiles.rect;
        let outer = tile_bounds_of(view_box);
        lemma_tile_bounds_within(bounds, view_box);
        assert forall|i: int| 0 <= i < builder.built_path.tiles.data@.len() implies outer.contains(
            (#[trigger] builder.built_path.tiles.data@[i]).tile_x as int,
            builder.built_path.tiles.data@[i].tile_y as int,
        ) by {
            lemma_coords_of_index(i, rect.width as int, rect.height as int);
        }
    }
    builder
}

/// The tiles of a rectangle within the view box lie within the view box's tiles.
proof fn lemma_tile_bounds_within(inner: FixedRect, outer: FixedRect)
    requires
        rect_within(inner, outer),
        inner.wf(),
        outer.wf(),
    ensures
        tile_bounds_of(outer).origin_x <= tile_bounds_of(inner).origin_x,
        tile_bounds_of(outer).origin_y <= tile_bounds_of(inner).origin_y,
        tile_bounds_of(inner).origin_x + tile_bounds_of(inner).width <= tile_bounds_of(outer).origin_x
            + tile_bounds_of(outer).width,
        tile_bounds_of(inner).origin_y + tile_bounds_of(inner).height <= tile_bounds_of(outer).origin_y
            + tile_bounds_of(outer).height,
{
    vstd::arithmetic::div_mod::lemma_div_is_ordered(outer.min_x as int, inner.min_x as int, 4096);
    vstd::arithmetic::div_mod::lemma_div_is_ordered(outer.min_y as int, inner.min_y as int, 4096);
    vstd::arithmetic::div_mod::lemma_div_is_ordered(-(outer.max_x as int), -(inner.max_x as int), 4096);
    vstd::arithmetic::div_mod::lemma_div_is_ordered(-(outer.max_y as int), -(inner.max_y as int), 4096);
    round_rect_facts(inner);
    round_rect_facts(outer);
}

/// The tile rectangle of a well-formed fixed rectangle has the bounds that
/// `round_rect_out_to_tile_bounds` computes, without wrapping.
proof fn round_rect_facts(r: FixedRect)
    requires
        r.wf(),
    ensures
        tile_bounds_of(r).origin_x == floor_div(r.min_x as int, 4096),
        tile_bounds_of(r).origin_y == floor_div(r.min_y as int, 4096),
        tile_bounds_of(r).origin_x + tile_bounds_of(r).width == crate::tile_map::ceil_div(r.max_x as int, 4096),
        tile_bounds_of(r).origin_y + tile_bounds_of(r).height == crate::tile_map::ceil_div(r.max_y as int, 4096),
{
    crate::tile_map::lemma_tile_bounds_exact(r);
}

} // verus!
