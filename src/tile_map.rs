//! Tile coordinates, rectangles of tiles, and dense per-tile maps.

use vstd::prelude::*;

verus! {

/// Width of a tile in pixels.
pub const TILE_WIDTH: i32 = 16;

/// Height of a tile in pixels.
pub const TILE_HEIGHT: i32 = 16;

/// Fixed-point units per pixel: scene coordinates carry eight fractional bits.
pub const FIXED_ONE: i32 = 256;

/// Fixed-point units across one tile.
pub const TILE_UNITS: i32 = 4096;

/// Mathematical floor of `a / b` for a positive `b`.
pub open spec fn floor_div(a: int, b: int) -> int {
    a / b
}

/// Mathematical ceiling of `a / b` for a positive `b`.
pub open spec fn ceil_div(a: int, b: int) -> int {
    -((-a) / b)
}

/// `floor(a / b)` on machine integers.
pub fn floor_div_i64(a: i64, b: i64) -> (r: i64)
    requires
        b > 0,
        a > i64::MIN / 2,
        b < i64::MAX / 2,
    ensures
        r as int == floor_div(a as int, b as int),
{
    if a >= 0 {
        let q = a / b;
        q
    } else {
        let n: i64 = -a;
        let q: i64 = (n + b - 1) / b;
        proof {
            lemma_neg_floor(n as int, b as int);
            assert(-(q as int) == (a as int) / (b as int));
            assert(q as int <= n as int) by {
                assert((n as int + b as int - 1) / (b as int) <= n as int) by {
                    lemma_ceil_le(n as int, b as int);
                }
            }
        }
        let r = -q;
        r
    }
}

/// For positive `n` and `b`, `(n + b - 1) / b == -((-n) / b)` (the ceiling).
pub proof fn lemma_neg_floor(n: int, b: int)
    requires
        n > 0,
        b > 0,
    ensures
        (n + b - 1) / b == -((-n) / b),
{
    let q = (n + b - 1) / b;
    let r = (n + b - 1) % b;
    vstd::arithmetic::div_mod::lemma_fundamental_div_mod(n + b - 1, b);
    let q2 = (-n) / b;
    vstd::arithmetic::div_mod::lemma_fundamental_div_mod(-n, b);
    assert(n + b - 1 == b * q + r);
    assert(-n == b * q2 + (-n) % b);
    assert(0 <= r < b);
    assert(0 <= (-n) % b < b);
    // b*q + r - b + 1 == -(b*q2 + s), hence b*(q + q2) == b - 1 - r - s, which lies in (-b, b).
    assert(b * (q + q2) == b - 1 - r - (-n) % b) by (nonlinear_arith)
        requires
            n + b - 1 == b * q + r,
            -n == b * q2 + (-n) % b,
    ;
    if q + q2 > 0 {
        assert(b * (q + q2) >= b) by (nonlinear_arith)
            requires
                q + q2 > 0,
                b > 0,
        ;
    } else if q + q2 < 0 {
        assert(b * (q + q2) <= -b) by (nonlinear_arith)
            requires
                q + q2 < 0,
                b > 0,
        ;
    }
}

/// An integer vector: tile coordinates, or a size in tiles.
#[derive(Clone, Copy, PartialEq, Eq, Structural, Debug)]
pub struct Vector2I {
    pub x: i32,
    pub y: i32,
}

/// A rectangle of tiles: `origin` inclusive, `origin + size` exclusive.
#[derive(Clone, Copy, PartialEq, Eq, Debug)]
pub struct TileRect {
    pub origin_x: i32,
    pub origin_y: i32,
    pub width: i32,
    pub height: i32,
}

/// A rectangle in fixed-point scene units (1/256 pixel): `min` inclusive, `max` exclusive.
#[derive(Clone, Copy, PartialEq, Eq, Debug)]
pub struct FixedRect {
    pub min_x: i32,
    pub min_y: i32,
    pub max_x: i32,
    pub max_y: i32,
}

/// Bound on the magnitude of scene coordinates, so that every tile coordinate
/// fits the 16-bit fields of the packed tile records.
pub const COORD_LIMIT: i32 = 0x400_0000;

/// A scene coordinate within the supported range.
pub open spec fn coord_ok(v: int) -> bool {
    -COORD_LIMIT <= v <= COORD_LIMIT
}

impl FixedRect {
    pub open spec fn wf(&self) -> bool {
        &&& self.min_x <= self.max_x
        &&& self.min_y <= self.max_y
        &&& coord_ok(self.min_x as int)
        &&& coord_ok(self.min_y as int)
        &&& coord_ok(self.max_x as int)
        &&& coord_ok(self.max_y as int)
    }
}

impl TileRect {
    pub open spec fn wf(&self) -> bool {
        &&& self.width >= 0
        &&& self.height >= 0
        &&& self.origin_x as int + self.width as int <= i32::MAX
        &&& self.origin_y as int + self.height as int <= i32::MAX
        &&& self.width as int * self.height as int <= usize::MAX
    }

    /// Every tile coordinate of the rectangle, and its far corner, fits in 16 bits.
    pub open spec fn fits_i16(&self) -> bool {
        &&& -0x4000 <= self.origin_x
        &&& -0x4000 <= self.origin_y
        &&& self.origin_x + self.width <= 0x4000
        &&& self.origin_y + self.height <= 0x4000
    }

    /// Number of tiles in the rectangle.
    pub open spec fn area(&self) -> int {
        self.width as int * self.height as int
    }

    pub open spec fn contains(&self, x: int, y: int) -> bool {
        &&& self.origin_x <= x < self.origin_x + self.width
        &&& self.origin_y <= y < self.origin_y + self.height
    }

    /// Row-major position of tile `(x, y)`.
    pub open spec fn index_of(&self, x: int, y: int) -> int {
        (y - self.origin_y) * self.width + (x - self.origin_x)
    }

    /// Tile x coordinate of row-major position `i`.
    pub open spec fn x_of(&self, i: int) -> int {
        self.origin_x + i % self.width as int
    }

    /// Tile y coordinate of row-major position `i`.
    pub open spec fn y_of(&self, i: int) -> int {
        self.origin_y + i / self.width as int
    }
}

/// The tiles that a fixed-point rectangle touches, rounded outward.
pub open spec fn tile_bounds_of(rect: FixedRect) -> TileRect {
    let ox = floor_div(rect.min_x as int, TILE_UNITS as int);
    let oy = floor_div(rect.min_y as int, TILE_UNITS as int);
    let ex = ceil_div(rect.max_x as int, TILE_UNITS as int);
    let ey = ceil_div(rect.max_y as int, TILE_UNITS as int);
    TileRect { origin_x: ox as i32, origin_y: oy as i32, width: (ex - ox) as i32, height: (ey - oy) as i32 }
}

/// The tile bounds of a well-formed rectangle are exact: no coordinate wraps.
pub proof fn lemma_tile_bounds_exact(rect: FixedRect)
    requires
        rect.wf(),
    ensures
        tile_bounds_of(rect).origin_x == floor_div(rect.min_x as int, TILE_UNITS as int),
        tile_bounds_of(rect).origin_y == floor_div(rect.min_y as int, TILE_UNITS as int),
        tile_bounds_of(rect).origin_x + tile_bounds_of(rect).width == ceil_div(rect.max_x as int, TILE_UNITS as int),
        tile_bounds_of(rect).origin_y + tile_bounds_of(rect).height == ceil_div(rect.max_y as int, TILE_UNITS as int),
{
    lemma_tile_div_bounds(rect.min_x as int);
    lemma_tile_div_bounds(rect.min_y as int);
    lemma_tile_div_bounds(-(rect.max_x as int));
    lemma_tile_div_bounds(-(rect.max_y as int));
    lemma_tile_width_cap(rect.min_x as int, rect.max_x as int);
    lemma_tile_width_cap(rect.min_y as int, rect.max_y as int);
}

/// Rounds a fixed-point rectangle out to the tiles that it touches.
pub fn round_rect_out_to_tile_bounds(rect: FixedRect) -> (r: TileRect)
    requires
        rect.wf(),
    ensures
        r == tile_bounds_of(rect),
        r.wf(),
        r.fits_i16(),
{
    let ox = floor_div_i64(rect.min_x as i64, TILE_UNITS as i64);
    let oy = floor_div_i64(rect.min_y as i64, TILE_UNITS as i64);
    let nx = floor_div_i64(-(rect.max_x as i64), TILE_UNITS as i64);
    let ny = floor_div_i64(-(rect.max_y as i64), TILE_UNITS as i64);
    proof {
        lemma_tile_div_bounds(rect.min_x as int);
        lemma_tile_div_bounds(rect.min_y as int);
        lemma_tile_div_bounds(-(rect.max_x as int));
        lemma_tile_div_bounds(-(rect.max_y as int));
        lemma_div_monotone(-(rect.max_x as int), -(rect.min_x as int));
        lemma_div_monotone(-(rect.max_y as int), -(rect.min_y as int));
        lemma_tile_width_cap(rect.min_x as int, rect.max_x as int);
        lemma_tile_width_cap(rect.min_y as int, rect.max_y as int);
        assert(-(rect.min_x as int) / 4096 + rect.min_x as int / 4096 >= -1) by {
            lemma_neg_div(rect.min_x as int);
        }
        assert(-(rect.min_y as int) / 4096 + rect.min_y as int / 4096 >= -1) by {
            lemma_neg_div(rect.min_y as int);
        }
        let w = -nx - ox;
        let h = -ny - oy;
        assert(0 <= w <= 0x8000);
        assert(0 <= h <= 0x8000);
        assert(w * h <= 0x8000 * 0x8000) by (nonlinear_arith)
            requires
                0 <= w <= 0x8000,
                0 <= h <= 0x8000,
        ;
    }
    TileRect {
        origin_x: ox as i32,
        origin_y: oy as i32,
        width: (-nx - ox) as i32,
        height: (-ny - oy) as i32,
    }
}

proof fn lemma_tile_div_bounds(a: int)
    requires
        coord_ok(a),
    ensures
        -0x4000 <= a / 4096 <= 0x4000,
{
    vstd::arithmetic::div_mod::lemma_div_is_ordered(-0x400_0000, a, 4096);
    vstd::arithmetic::div_mod::lemma_div_is_ordered(a, 0x400_0000, 4096);
    assert((-0x400_0000int) / 4096 == -0x4000);
    assert((0x400_0000int) / 4096 == 0x4000);
}

proof fn lemma_div_monotone(a: int, b: int)
    requires
        a <= b,
    ensures
        a / 4096 <= b / 4096,
{
    vstd::arithmetic::div_mod::lemma_div_is_ordered(a, b, 4096);
}

proof fn lemma_neg_div(a: int)
    ensures
        (-a) / 4096 + a / 4096 >= -1,
        (-a) / 4096 + a / 4096 <= 0,
{
    vstd::arithmetic::div_mod::lemma_fundamental_div_mod(a, 4096);
    vstd::arithmetic::div_mod::lemma_fundamental_div_mod(-a, 4096);
    let q1 = a / 4096;
    let q2 = (-a) / 4096;
    assert(4096 * (q1 + q2) == -(a % 4096) - ((-a) % 4096));
}

/// For positive `n` and `b`, the ceiling of `n / b` is at most `n`.
proof fn lemma_ceil_le(n: int, b: int)
    requires
        n > 0,
        b > 0,
    ensures
        (n + b - 1) / b <= n,
{
    vstd::arithmetic::div_mod::lemma_fundamental_div_mod(n + b - 1, b);
    let q = (n + b - 1) / b;
    let r = (n + b - 1) % b;
    assert(q <= n) by (nonlinear_arith)
        requires
            n + b - 1 == b * q + r,
            0 <= r < b,
            n > 0,
            b > 0,
    ;
}

proof fn lemma_tile_width_cap(lo: int, hi: int)
    requires
        coord_ok(lo),
        coord_ok(hi),
        lo <= hi,
    ensures
        -((-hi) / 4096) - lo / 4096 <= 0x8000,
        -((-hi) / 4096) - lo / 4096 >= 0,
{
    lemma_div_monotone(-hi, -lo);
    lemma_neg_div(lo);
    lemma_tile_div_bounds(lo);
    lemma_tile_div_bounds(-hi);
}

/// A dense map with one value per tile of a rectangle, stored row by row.
pub struct DenseTileMap<T> {
    pub data: Vec<T>,
    pub rect: TileRect,
}

impl<T> DenseTileMap<T> {
    pub open spec fn wf(&self) -> bool {
        &&& self.rect.wf()
        &&& self.data@.len() == self.rect.area()
    }

    /// Position of tile `(x, y)` if it lies in the map's rectangle.
    pub fn coords_to_index(&self, x: i32, y: i32) -> (r: Option<usize>)
        requires
            self.wf(),
        ensures
            r.is_some() == self.rect.contains(x as int, y as int),
            r.is_some() ==> r.unwrap() as int == self.rect.index_of(x as int, y as int),
            r.is_some() ==> r.unwrap() < self.data@.len(),
    {
        let rect = self.rect;
        let dx = x as i64 - rect.origin_x as i64;
        let dy = y as i64 - rect.origin_y as i64;
        if dx < 0 || dy < 0 || dx >= rect.width as i64 || dy >= rect.height as i64 {
            return None;
        }
        proof {
            lemma_index_in_bounds(dx as int, dy as int, rect.width as int, rect.height as int);
        }
        Some((dy as usize) * (rect.width as usize) + (dx as usize))
    }

    /// Tile coordinates of position `index`.
    pub fn index_to_coords(&self, index: usize) -> (r: (i32, i32))
        requires
            self.wf(),
            index < self.data@.len(),
        ensures
            r.0 as int == self.rect.x_of(index as int),
            r.1 as int == self.rect.y_of(index as int),
            self.rect.contains(r.0 as int, r.1 as int),
            self.rect.index_of(r.0 as int, r.1 as int) == index as int,
    {
        let w = self.rect.width as usize;
        proof {
            lemma_coords_of_index(index as int, self.rect.width as int, self.rect.height as int);
        }
        let dx = index % w;
        let dy = index / w;
        ((self.rect.origin_x as i64 + dx as i64) as i32, (self.rect.origin_y as i64 + dy as i64) as i32)
    }
}

impl<T: Copy> DenseTileMap<T> {
    /// A map over `rect` that holds `value` at every tile.
    pub fn filled(value: T, rect: TileRect) -> (r: DenseTileMap<T>)
        requires
            rect.wf(),
        ensures
            r.wf(),
            r.rect == rect,
            forall|i: int| 0 <= i < r.data@.len() ==> r.data@[i] == value,
    {
        let n = (rect.width as usize) * (rect.height as usize);
        let mut data: Vec<T> = Vec::new();
        let mut i: usize = 0;
        while i < n
            invariant
                i <= n,
                data@.len() == i,
                forall|j: int| 0 <= j < i ==> data@[j] == value,
            decreases n - i,
        {
            data.push(value);
            i = i + 1;
        }
        DenseTileMap { data, rect }
    }
}

/// A rectangle whose tile coordinates fit in 16 bits has at most 2^30 tiles.
pub proof fn lemma_area_fits(rect: TileRect)
    requires
        rect.wf(),
        rect.fits_i16(),
    ensures
        rect.area() <= 0x4000_0000,
{
    let w = rect.width as int;
    let h = rect.height as int;
    assert(w * h <= 0x8000 * 0x8000) by (nonlinear_arith)
        requires
            0 <= w <= 0x8000,
            0 <= h <= 0x8000,
    ;
}

/// A tile inside a `w` by `h` rectangle lands inside its row-major storage.
pub proof fn lemma_index_in_bounds(dx: int, dy: int, w: int, h: int)
    requires
        0 <= dx < w,
        0 <= dy < h,
    ensures
        0 <= dy * w + dx < w * h,
{
    assert(dy * w + dx < w * h) by (nonlinear_arith)
        requires
            0 <= dx < w,
            0 <= dy < h,
    ;
    assert(0 <= dy * w) by (nonlinear_arith)
        requires
            0 <= dy,
            0 <= w,
    ;
}

/// Row-major position `i` of a `w` by `h` rectangle names a tile of it, and back.
pub proof fn lemma_coords_of_index(i: int, w: int, h: int)
    requires
        0 <= i < w * h,
        w >= 0,
        h >= 0,
    ensures
        w > 0,
        0 <= i % w < w,
        0 <= i / w < h,
        (i / w) * w + i % w == i,
{
    if w == 0 {
        assert(w * h == 0);
    }
    vstd::arithmetic::div_mod::lemma_fundamental_div_mod(i, w);
    assert(i / w < h) by (nonlinear_arith)
        requires
            0 <= i < w * h,
            w > 0,
            i == w * (i / w) + i % w,
            0 <= i % w,
    ;
    assert(i / w >= 0) by (nonlinear_arith)
        requires
            0 <= i,
            w > 0,
    ;
    assert((i / w) * w == w * (i / w)) by (nonlinear_arith);
}

} // verus!
