//! Per-path tile maps and fill records, and the batches handed to tile preparation.

use vstd::prelude::*;
use crate::blend::BlendMode;
use crate::blend::BlendModeExt;
use crate::blend::reads_destination;
use crate::blend::occludes;
use crate::gpu_data::AlphaTileCounters;
use crate::gpu_data::AlphaTileId;
use crate::gpu_data::Clip;
use crate::gpu_data::Fill;
use crate::gpu_data::LineSegmentU16;
use crate::gpu_data::TileObjectPrimitive;
use crate::gpu_data::INVALID_ALPHA_TILE;
use crate::gpu_data::alpha_tile_value;
use crate::gpu_data::PathIndex;
use crate::gpu_data::TileBatchId;
use crate::gpu_data::PrepareTilesBatch;
use crate::gpu_data::PrepareTilesCPUInfo;
use crate::gpu_data::PrepareTilesGPUInfo;
use crate::gpu_data::PrepareTilesModalInfo;
use crate::gpu_data::PropagateMetadata;
use crate::gpu_data::ClippedPathInfo;
use crate::tile_map::DenseTileMap;
use crate::tile_map::FixedRect;
use crate::tile_map::TileRect;
use crate::tile_map::Vector2I;
use crate::tile_map::coord_ok;
use crate::tile_map::tile_bounds_of;
use crate::tile_map::round_rect_out_to_tile_bounds;
use crate::tile_map::lemma_coords_of_index;
use crate::tile_map::lemma_index_in_bounds;

verus! {

/// How the winding number of a point decides whether it is filled.
#[derive(Clone, Copy, PartialEq, Eq, Debug)]
pub enum FillRule {
    Winding,
    EvenOdd,
}

/// What tiling needs to know of a draw path.
#[derive(Clone, Copy, PartialEq, Eq, Debug)]
pub struct DrawTilingPathInfo {
    pub paint_id: u16,
    /// Whether the path's paint is fully opaque.
    pub paint_is_opaque: bool,
    pub blend_mode: BlendMode,
    /// The clip path applied to this path, if any.
    pub built_clip_path: Option<u32>,
    pub fill_rule: FillRule,
}

/// Whether a path is drawn or used as a clip.
#[derive(Clone, Copy, PartialEq, Eq, Debug)]
pub enum TilingPathInfo {
    Clip,
    Draw(DrawTilingPathInfo),
}

/// Whether tiles of such a path hide what lies beneath them.
pub open spec fn path_occludes(info: TilingPathInfo) -> bool {
    match info {
        TilingPathInfo::Draw(d) => d.paint_is_opaque && occludes(d.blend_mode),
        TilingPathInfo::Clip => true,
    }
}

/// The color (paint) index that the path's tiles carry.
pub open spec fn path_color(info: TilingPathInfo) -> u16 {
    match info {
        TilingPathInfo::Draw(d) => d.paint_id,
        TilingPathInfo::Clip => 0,
    }
}

/// The control byte of the path's tiles: the fill rule of its mask.
pub open spec fn path_ctrl(info: TilingPathInfo) -> u8 {
    match info {
        TilingPathInfo::Draw(d) => match d.fill_rule {
            FillRule::EvenOdd => 2u8,
            FillRule::Winding => 1u8,
        },
        TilingPathInfo::Clip => 0u8,
    }
}

/// Whether the path's tile map must cover the whole view box: its blend mode reads
/// the destination, also where the path does not draw.
pub open spec fn covers_view_box(info: TilingPathInfo) -> bool {
    match info {
        TilingPathInfo::Draw(d) => reads_destination(d.blend_mode),
        TilingPathInfo::Clip => false,
    }
}

/// Whether the path has a clip path.
pub open spec fn has_clip(info: TilingPathInfo) -> bool {
    match info {
        TilingPathInfo::Draw(d) => d.built_clip_path.is_some(),
        TilingPathInfo::Clip => false,
    }
}

impl TilingPathInfo {
    /// Whether the path's blend mode requires a tile map over the whole view box.
    pub fn has_destructive_blend_mode(&self) -> (r: bool)
        ensures
            r == covers_view_box(*self),
    {
        match self {
            TilingPathInfo::Draw(d) => d.blend_mode.needs_readable_framebuffer(),
            TilingPathInfo::Clip => false,
        }
    }
}

/// A tile that an opaque path covers entirely.
#[derive(Clone, Copy, PartialEq, Eq, Debug)]
pub struct Occluder {
    pub coords: Vector2I,
}

impl Occluder {
    pub fn new(coords: Vector2I) -> (r: Occluder)
        ensures
            r.coords == coords,
    {
        Occluder { coords }
    }
}

/// Counts of solid and alpha tiles.
#[derive(Clone, Copy, PartialEq, Eq, Debug, Default)]
pub struct TileStats {
    pub solid_tile_count: u32,
    pub alpha_tile_count: u32,
}

/// A clip record with the key of the batch that it belongs to.
#[derive(Clone, Copy, PartialEq, Eq, Debug)]
pub struct BuiltClip {
    pub clip: Clip,
    pub key: crate::gpu_data::ClipBatchKey,
}

/// Backdrops of the tile columns above a path's tile rectangle.
pub struct BuiltPathTiledData {
    /// Per tile column, the sum of backdrop deltas from above the tile rectangle.
    pub backdrops: Vec<i32>,
}

/// The tiles of one path, as built by tiling.
pub struct BuiltPath {
    pub data: BuiltPathTiledData,
    pub tiles: DenseTileMap<TileObjectPrimitive>,
    pub clip_tiles: Option<DenseTileMap<Clip>>,
    pub occluders: Option<Vec<Occluder>>,
    pub fill_rule: FillRule,
}

/// The record that `BuiltPath::new` puts at position `i` of a tile map over `rect`.
pub open spec fn initial_tile(rect: TileRect, i: int, path_id: u32, info: TilingPathInfo) -> TileObjectPrimitive {
    TileObjectPrimitive {
        tile_x: rect.x_of(i) as i16,
        tile_y: rect.y_of(i) as i16,
        alpha_tile_id: AlphaTileId(INVALID_ALPHA_TILE),
        path_id,
        color: path_color(info),
        backdrop: 0,
        ctrl: path_ctrl(info),
    }
}

impl BuiltPath {
    pub open spec fn wf(&self) -> bool {
        &&& self.tiles.wf()
        &&& self.tiles.rect.fits_i16()
        &&& self.data.backdrops@.len() == self.tiles.rect.width
        &&& forall|i: int| 0 <= i < self.tiles.data@.len() ==> {
            &&& (#[trigger] self.tiles.data@[i]).tile_x == self.tiles.rect.x_of(i)
            &&& self.tiles.data@[i].tile_y == self.tiles.rect.y_of(i)
        }
        &&& self.clip_tiles.is_some() ==> self.clip_tiles.unwrap().wf()
        &&& self.clip_tiles.is_some() ==> self.clip_tiles.unwrap().rect == self.tiles.rect
    }

    /// An empty tile map for a path: it covers the tiles of `path_bounds`, or those of
    /// `view_box_bounds` where the blend mode needs the whole view box.
    pub fn new(
        path_id: u32,
        path_bounds: FixedRect,
        view_box_bounds: FixedRect,
        fill_rule: FillRule,
        tiling_path_info: &TilingPathInfo,
    ) -> (r: BuiltPath)
        requires
            path_bounds.wf(),
            view_box_bounds.wf(),
        ensures
            r.wf(),
            r.tiles.rect == tile_bounds_of(
                if covers_view_box(*tiling_path_info) { view_box_bounds } else { path_bounds },
            ),
            forall|i: int| 0 <= i < r.tiles.data@.len() ==> #[trigger] r.tiles.data@[i]
                == initial_tile(r.tiles.rect, i, path_id, *tiling_path_info),
            r.clip_tiles.is_some() == has_clip(*tiling_path_info),
            r.clip_tiles.is_some() ==> r.clip_tiles.unwrap().rect == r.tiles.rect,
            r.clip_tiles.is_some() ==> forall|i: int| 0 <= i < r.clip_tiles.unwrap().data@.len()
                ==> #[trigger] r.clip_tiles.unwrap().data@[i] == Clip::unassigned(),
            forall|i: int| 0 <= i < r.data.backdrops@.len() ==> #[trigger] r.data.backdrops@[i] == 0,
            r.occluders.is_some() == path_occludes(*tiling_path_info),
            r.occluders.is_some() ==> r.occluders.unwrap()@.len() == 0,
            r.fill_rule == fill_rule,
    {
        let occludes = match *tiling_path_info {
            TilingPathInfo::Draw(ref d) => d.paint_is_opaque && d.blend_mode.occludes_backdrop(),
            TilingPathInfo::Clip => true,
        };
        let color: u16 = match *tiling_path_info {
            TilingPathInfo::Draw(ref d) => d.paint_id,
            TilingPathInfo::Clip => 0,
        };
        let ctrl: u8 = match *tiling_path_info {
            TilingPathInfo::Draw(ref d) => match d.fill_rule {
                FillRule::EvenOdd => 2u8,
                FillRule::Winding => 1u8,
            },
            TilingPathInfo::Clip => 0u8,
        };
        let tile_map_bounds = if tiling_path_info.has_destructive_blend_mode() {
            view_box_bounds
        } else {
            path_bounds
        };
        let rect = round_rect_out_to_tile_bounds(tile_map_bounds);
        let w = rect.width as usize;
        let h = rect.height as usize;
        let mut data: Vec<TileObjectPrimitive> = Vec::new();
        let mut dy: usize = 0;
        while dy < h
            invariant
                rect.wf(),
                rect.fits_i16(),
                w == rect.width,
                h == rect.height,
                dy <= h,
                data@.len() == dy * w,
                forall|i: int| 0 <= i < data@.len() ==> #[trigger] data@[i]
                    == initial_tile(rect, i, path_id, *tiling_path_info),
                color == path_color(*tiling_path_info),
                ctrl == path_ctrl(*tiling_path_info),
            decreases h - dy,
        {
            let mut dx: usize = 0;
            proof {
                assert(dy * w + w <= h * w) by (nonlinear_arith)
                    requires
                        dy < h,
                ;
            }
            while dx < w
                invariant
                    rect.wf(),
                    rect.fits_i16(),
                    w == rect.width,
                    h == rect.height,
                    dy < h,
                    dx <= w,
                    dy * w + w <= h * w,
                    data@.len() == dy * w + dx,
                    forall|i: int| 0 <= i < data@.len() ==> #[trigger] data@[i]
                        == initial_tile(rect, i, path_id, *tiling_path_info),
                    color == path_color(*tiling_path_info),
                    ctrl == path_ctrl(*tiling_path_info),
                decreases w - dx,
            {
                let ghost i = data@.len() as int;
                proof {
                    lemma_split_index(dy as int, dx as int, w as int);
                }
                let tile = TileObjectPrimitive {
                    tile_x: (rect.origin_x + dx as i32) as i16,
                    tile_y: (rect.origin_y + dy as i32) as i16,
                    alpha_tile_id: AlphaTileId(0xffff_ffff),
                    path_id,
                    color,
                    backdrop: 0,
                    ctrl,
                };
                data.push(tile);
                dx = dx + 1;
            }
            proof {
                assert((dy + 1) * w == dy * w + w) by (nonlinear_arith);
            }
            dy = dy + 1;
        }
        let tiles = DenseTileMap { data, rect };
        proof {
            assert((h as int) * (w as int) == (w as int) * (h as int)) by (nonlinear_arith);
            assert forall|i: int| 0 <= i < tiles.data@.len() implies {
                &&& (#[trigger] tiles.data@[i]).tile_x == tiles.rect.x_of(i)
                &&& tiles.data@[i].tile_y == tiles.rect.y_of(i)
            } by {
                lemma_coords_of_index(i, w as int, h as int);
            }
        }
        let clip_tiles = match *tiling_path_info {
            TilingPathInfo::Draw(ref d) => if d.built_clip_path.is_some() {
                Some(DenseTileMap::filled(Clip::default(), rect))
            } else {
                None
            },
            TilingPathInfo::Clip => None,
        };
        let mut backdrops: Vec<i32> = Vec::new();
        let mut k: usize = 0;
        while k < w
            invariant
                k <= w,
                backdrops@.len() == k,
                forall|j: int| 0 <= j < k ==> backdrops@[j] == 0,
            decreases w - k,
        {
            backdrops.push(0);
            k = k + 1;
        }
        let occluders = if occludes { Some(Vec::new()) } else { None };
        BuiltPath {
            data: BuiltPathTiledData { backdrops },
            tiles,
            clip_tiles,
            fill_rule,
            occluders,
        }
    }
}

/// Tiles across (and down) the alpha mask atlas.
pub const MASK_TILES_ACROSS: u32 = 256;

/// A line segment in fixed-point scene coordinates (1/256 pixel).
#[derive(Clone, Copy, PartialEq, Eq, Debug)]
pub struct LineSegmentFixed {
    pub from_x: i32,
    pub from_y: i32,
    pub to_x: i32,
    pub to_y: i32,
}

impl LineSegmentFixed {
    pub open spec fn wf(&self) -> bool {
        coord_ok(self.from_x as int) && coord_ok(self.from_y as int) && coord_ok(self.to_x as int)
            && coord_ok(self.to_y as int)
    }
}

/// Largest tile-local 8.8 fixed-point coordinate: `TILE_WIDTH * 256 - 1`.
pub const TILE_LOCAL_MAX: i32 = 4095;

/// Coordinate `v` relative to the tile at `t`, clamped into the tile.
pub open spec fn local_coord(v: int, t: int) -> int {
    let d = v - t * 4096;
    if d < 0 { 0 } else if d > TILE_LOCAL_MAX { TILE_LOCAL_MAX as int } else { d }
}

/// The tile-local segment that a fill of `seg` into tile `(tx, ty)` records.
pub open spec fn local_segment(seg: LineSegmentFixed, tx: int, ty: int) -> LineSegmentU16 {
    LineSegmentU16 {
        from_x: local_coord(seg.from_x as int, tx) as u16,
        from_y: local_coord(seg.from_y as int, ty) as u16,
        to_x: local_coord(seg.to_x as int, tx) as u16,
        to_y: local_coord(seg.to_y as int, ty) as u16,
    }
}

/// A fill of `seg` into tile `(tx, ty)` is culled: it has no horizontal extent
/// after clamping.
pub open spec fn fill_is_degenerate(seg: LineSegmentFixed, tx: int, ty: int) -> bool {
    local_coord(seg.from_x as int, tx) == local_coord(seg.to_x as int, tx)
}

/// The fills after a fill of `seg` into tile `(tx, ty)` of a map over `rect`: culled
/// outside the map or where degenerate, and otherwise appended with the tile's alpha
/// tile as found in `tiles`.
pub open spec fn fills_after_add(
    old_fills: Seq<Fill>,
    new_fills: Seq<Fill>,
    tiles: Seq<TileObjectPrimitive>,
    rect: TileRect,
    seg: LineSegmentFixed,
    tx: int,
    ty: int,
) -> bool {
    if !rect.contains(tx, ty) || fill_is_degenerate(seg, tx, ty) {
        new_fills == old_fills
    } else {
        new_fills == old_fills.push(Fill {
            line_segment: local_segment(seg, tx, ty),
            alpha_tile_index: tiles[rect.index_of(tx, ty)].alpha_tile_id.0,
        })
    }
}

/// The position of an alpha tile in the mask atlas.
pub fn calculate_mask_uv(tile_index: u16) -> (r: Vector2I)
    ensures
        r.x == tile_index as int % MASK_TILES_ACROSS as int,
        r.y == tile_index as int / MASK_TILES_ACROSS as int,
{
    let mask_u = (tile_index as u32 % MASK_TILES_ACROSS) as i32;
    let mask_v = (tile_index as u32 / MASK_TILES_ACROSS) as i32;
    Vector2I { x: mask_u, y: mask_v }
}

/// Builds the tile map and the fills of one path.
pub struct ObjectBuilder {
    pub built_path: BuiltPath,
    pub fills: Vec<Fill>,
    pub bounds: FixedRect,
}

fn clamp_local(v: i32, t: i32) -> (r: i32)
    requires
        coord_ok(v as int),
        -0x4000 <= t <= 0x4000,
    ensures
        r as int == local_coord(v as int, t as int),
        0 <= r <= TILE_LOCAL_MAX,
{
    let d = v - t * 4096;
    if d < 0 {
        0
    } else if d > TILE_LOCAL_MAX {
        TILE_LOCAL_MAX
    } else {
        d
    }
}

/// Every coordinate of every fill lies within a tile: `0..=TILE_LOCAL_MAX`.
pub open spec fn fills_within_tiles(fills: Seq<Fill>) -> bool {
    forall|k: int| 0 <= k < fills.len() ==> {
        let s = (#[trigger] fills[k]).line_segment;
        &&& s.from_x <= TILE_LOCAL_MAX
        &&& s.from_y <= TILE_LOCAL_MAX
        &&& s.to_x <= TILE_LOCAL_MAX
        &&& s.to_y <= TILE_LOCAL_MAX
    }
}

impl ObjectBuilder {
    pub open spec fn wf(&self) -> bool {
        &&& self.built_path.wf()
        &&& fills_within_tiles(self.fills@)
    }

    /// Every fill names the alpha tile of a tile of the map, every tile with an alpha
    /// tile has a fill, and the alpha tiles are distinct and among `issued`.
    pub open spec fn alpha_tiles_consistent(&self, issued: Set<u32>) -> bool {
        alpha_tiles_match(self.built_path.tiles.data@, self.fills@, issued)
    }

    /// A builder with an empty tile map and no fills.
    pub fn new(
        path_id: u32,
        path_bounds: FixedRect,
        view_box_bounds: FixedRect,
        fill_rule: FillRule,
        tiling_path_info: &TilingPathInfo,
    ) -> (r: ObjectBuilder)
        requires
            path_bounds.wf(),
            view_box_bounds.wf(),
        ensures
            r.wf(),
            r.bounds == path_bounds,
            r.fills@.len() == 0,
            r.built_path.tiles.rect == tile_bounds_of(
                if covers_view_box(*tiling_path_info) { view_box_bounds } else { path_bounds },
            ),
            forall|i: int| 0 <= i < r.built_path.tiles.data@.len() ==> #[trigger] r.built_path.tiles.data@[i]
                == initial_tile(r.built_path.tiles.rect, i, path_id, *tiling_path_info),
            r.built_path.occluders.is_some() == path_occludes(*tiling_path_info),
            r.built_path.occluders.is_some() ==> r.built_path.occluders.unwrap()@.len() == 0,
            r.built_path.fill_rule == fill_rule,
            r.built_path.clip_tiles.is_some() == has_clip(*tiling_path_info),
            forall|i: int| 0 <= i < r.built_path.data.backdrops@.len() ==> #[trigger] r.built_path.data.backdrops@[i] == 0,
    {
        let built_path = BuiltPath::new(path_id, path_bounds, view_box_bounds, fill_rule, tiling_path_info);
        ObjectBuilder { built_path, bounds: path_bounds, fills: Vec::new() }
    }

    /// Position of tile `coords` in the path's tile map, if the map covers it.
    pub fn tile_coords_to_local_index(&self, coords: Vector2I) -> (r: Option<u32>)
        requires
            self.wf(),
        ensures
            r.is_some() == self.built_path.tiles.rect.contains(coords.x as int, coords.y as int),
            r.is_some() ==> r.unwrap() as int == self.built_path.tiles.rect.index_of(
                coords.x as int,
                coords.y as int,
            ),
    {
        proof {
            crate::tile_map::lemma_area_fits(self.built_path.tiles.rect);
        }
        match self.built_path.tiles.coords_to_index(coords.x, coords.y) {
            Some(index) => Some(index as u32),
            None => None,
        }
    }

    /// Coordinates of the tile at position `tile_index` of the path's tile map.
    pub fn local_tile_index_to_coords(&self, tile_index: u32) -> (r: Vector2I)
        requires
            self.wf(),
            tile_index < self.built_path.tiles.data@.len(),
        ensures
            r.x == self.built_path.tiles.rect.x_of(tile_index as int),
            r.y == self.built_path.tiles.rect.y_of(tile_index as int),
    {
        let (x, y) = self.built_path.tiles.index_to_coords(tile_index as usize);
        Vector2I { x, y }
    }

    /// The alpha tile of tile `tile_coords`, allocated from the counters if the tile
    /// has none yet.
    pub fn get_or_allocate_alpha_tile_index(
        &mut self,
        counters: &mut AlphaTileCounters,
        tile_coords: Vector2I,
    ) -> (r: AlphaTileId)
        requires
            old(self).wf(),
            old(counters).wf(),
            old(self).built_path.tiles.rect.contains(tile_coords.x as int, tile_coords.y as int),
            old(self).built_path.tiles.data@[old(self).built_path.tiles.rect.index_of(
                tile_coords.x as int,
                tile_coords.y as int,
            )].alpha_tile_id.0 == INVALID_ALPHA_TILE ==> old(counters).can_issue(0),
        ensures
            final(self).wf(),
            final(counters).wf(),
            r.0 != INVALID_ALPHA_TILE,
            ({
                let idx = old(self).built_path.tiles.rect.index_of(tile_coords.x as int, tile_coords.y as int);
                let old_tile = old(self).built_path.tiles.data@[idx];
                if old_tile.alpha_tile_id.0 != INVALID_ALPHA_TILE {
                    &&& r == old_tile.alpha_tile_id
                    &&& *final(counters) == *old(counters)
                    &&& final(self).built_path.tiles.data@ == old(self).built_path.tiles.data@
                } else {
                    &&& r.0 as int == alpha_tile_value(0, old(counters).next[0] as int)
                    &&& final(counters).next[0] == old(counters).next[0] + 1
                    &&& final(counters).next[1] == old(counters).next[1]
                    &&& !old(counters).issued().contains(r.0)
                    &&& final(counters).issued() == old(counters).issued().insert(r.0)
                    &&& final(self).built_path.tiles.data@ == old(self).built_path.tiles.data@.update(
                        idx,
                        TileObjectPrimitive { alpha_tile_id: r, ..old_tile },
                    )
                }
            }),
            final(self).built_path.tiles.rect == old(self).built_path.tiles.rect,
            final(self).built_path.data.backdrops@ == old(self).built_path.data.backdrops@,
            final(self).built_path.occluders == old(self).built_path.occluders,
            final(self).built_path.clip_tiles == old(self).built_path.clip_tiles,
            final(self).built_path.fill_rule == old(self).built_path.fill_rule,
            final(self).fills@ == old(self).fills@,
            final(self).bounds == old(self).bounds,
    {
        let local_tile_index = self.built_path.tiles.coords_to_index(tile_coords.x, tile_coords.y).unwrap();
        let tile = self.built_path.tiles.data[local_tile_index];
        if tile.alpha_tile_id.is_valid() {
            return tile.alpha_tile_id;
        }
        let alpha_tile_id = AlphaTileId::new(counters, 0);
        let new_tile = TileObjectPrimitive { alpha_tile_id, ..tile };
        self.built_path.tiles.data.set(local_tile_index, new_tile);
        proof {
            assert forall|i: int| 0 <= i < self.built_path.tiles.data@.len() implies {
                &&& (#[trigger] self.built_path.tiles.data@[i]).tile_x == self.built_path.tiles.rect.x_of(i)
                &&& self.built_path.tiles.data@[i].tile_y == self.built_path.tiles.rect.y_of(i)
            } by {
                assert(old(self).built_path.tiles.data@[i].tile_x == old(self).built_path.tiles.rect.x_of(i));
            }
        }
        alpha_tile_id
    }

    /// Records a fill of `segment` into tile `tile_coords`: the segment is made local
    /// to the tile in 8.8 fixed point and clamped into it. A fill outside the tile map,
    /// or one that has no horizontal extent after clamping, is culled.
    pub fn add_fill(
        &mut self,
        counters: &mut AlphaTileCounters,
        segment: LineSegmentFixed,
        tile_coords: Vector2I,
    )
        requires
            old(self).wf(),
            old(counters).wf(),
            old(self).built_path.tiles.rect.contains(tile_coords.x as int, tile_coords.y as int)
                && !fill_is_degenerate(segment, tile_coords.x as int, tile_coords.y as int)
                && old(self).built_path.tiles.data@[old(self).built_path.tiles.rect.index_of(
                tile_coords.x as int,
                tile_coords.y as int,
            )].alpha_tile_id.0 == INVALID_ALPHA_TILE ==> old(counters).can_issue(0),
            segment.wf(),
            old(self).alpha_tiles_consistent(old(counters).issued()),
        ensures
            final(self).wf(),
            final(counters).wf(),
            final(self).alpha_tiles_consistent(final(counters).issued()),
            fills_after_add(
                old(self).fills@,
                final(self).fills@,
                final(self).built_path.tiles.data@,
                old(self).built_path.tiles.rect,
                segment,
                tile_coords.x as int,
                tile_coords.y as int,
            ),
            final(self).built_path.tiles.rect == old(self).built_path.tiles.rect,
            final(self).built_path.data.backdrops@ == old(self).built_path.data.backdrops@,
            final(self).built_path.occluders == old(self).built_path.occluders,
            final(self).built_path.fill_rule == old(self).built_path.fill_rule,
            final(self).built_path.clip_tiles == old(self).built_path.clip_tiles,
            final(self).bounds == old(self).bounds,
            old(counters).issued().subset_of(final(counters).issued()),
            ({
                let rect = old(self).built_path.tiles.rect;
                let tx = tile_coords.x as int;
                let ty = tile_coords.y as int;
                if !rect.contains(tx, ty) || fill_is_degenerate(segment, tx, ty) {
                    &&& final(self).fills@ == old(self).fills@
                    &&& final(self).built_path.tiles.data@ == old(self).built_path.tiles.data@
                    &&& *final(counters) == *old(counters)
                } else {
                    let idx = rect.index_of(tx, ty);
                    let old_id = old(self).built_path.tiles.data@[idx].alpha_tile_id;
                    let id = final(self).built_path.tiles.data@[idx].alpha_tile_id;
                    &&& id.0 != INVALID_ALPHA_TILE
                    &&& old_id.0 != INVALID_ALPHA_TILE ==> id == old_id && *final(counters) == *old(counters)
                    &&& old_id.0 == INVALID_ALPHA_TILE ==> id.0 as int == alpha_tile_value(0, old(counters).next[0] as int)
                        && final(counters).next[0] == old(counters).next[0] + 1
                        && final(counters).issued() == old(counters).issued().insert(id.0)
                        && !old(counters).issued().contains(id.0)
                    &&& final(self).built_path.tiles.data@ == old(self).built_path.tiles.data@.update(
                        idx,
                        TileObjectPrimitive { alpha_tile_id: id, ..old(self).built_path.tiles.data@[idx] },
                    )
                    &&& final(self).fills@ == old(self).fills@.push(Fill {
                        line_segment: local_segment(segment, tx, ty),
                        alpha_tile_index: id.0,
                    })
                }
            }),
    {
        if self.tile_coords_to_local_index(tile_coords).is_none() {
            return;
        }
        let ghost rect = self.built_path.tiles.rect;
        let from_x = clamp_local(segment.from_x, tile_coords.x);
        let from_y = clamp_local(segment.from_y, tile_coords.y);
        let to_x = clamp_local(segment.to_x, tile_coords.x);
        let to_y = clamp_local(segment.to_y, tile_coords.y);
        if from_x == to_x {
            return;
        }
        let ghost tiles0 = self.built_path.tiles.data@;
        let ghost fills0 = self.fills@;
        let ghost issued0 = counters.issued();
        let alpha_tile_id = self.get_or_allocate_alpha_tile_index(counters, tile_coords);
        let ghost idx = rect.index_of(tile_coords.x as int, tile_coords.y as int);
        proof {
            lemma_index_in_bounds(
                tile_coords.x - rect.origin_x,
                tile_coords.y - rect.origin_y,
                rect.width as int,
                rect.height as int,
            );
        }
        self.fills.push(Fill {
            line_segment: LineSegmentU16 {
                from_x: from_x as u16,
                from_y: from_y as u16,
                to_x: to_x as u16,
                to_y: to_y as u16,
            },
            alpha_tile_index: alpha_tile_id.0,
        });
        proof {
            let tiles1 = self.built_path.tiles.data@;
            let fills1 = self.fills@;
            let issued1 = counters.issued();
            assert(issued0.subset_of(issued1));
            assert(tiles1[idx].alpha_tile_id == alpha_tile_id);
            assert(assigned(tiles1, idx));
            assert forall|k: int| 0 <= k < fills1.len() implies names_tile(tiles1, (#[trigger] fills1[k]).alpha_tile_index) by {
                if k == fills0.len() {
                    assert(fills1[k].alpha_tile_index == tiles1[idx].alpha_tile_id.0);
                } else {
                    assert(fills1[k] == fills0[k]);
                    assert(names_tile(tiles0, fills0[k].alpha_tile_index));
                    let i0 = choose|i: int| 0 <= i < tiles0.len() && #[trigger] assigned(tiles0, i)
                        && tiles0[i].alpha_tile_id.0 == fills0[k].alpha_tile_index;
                    assert(tiles1[i0].alpha_tile_id == tiles0[i0].alpha_tile_id);
                    assert(assigned(tiles1, i0));
                }
            }
            assert forall|i: int| 0 <= i < tiles1.len() && #[trigger] assigned(tiles1, i)
                implies issued1.contains(tiles1[i].alpha_tile_id.0) && has_fill(fills1, tiles1[i].alpha_tile_id.0) by {
                if i == idx {
                    assert(fills1[fills0.len() as int].alpha_tile_index == tiles1[i].alpha_tile_id.0);
                } else {
                    assert(tiles1[i] == tiles0[i]);
                    assert(assigned(tiles0, i));
                    assert(has_fill(fills0, tiles0[i].alpha_tile_id.0));
                    let k0 = choose|k: int| 0 <= k < fills0.len() && (#[trigger] fills0[k]).alpha_tile_index
                        == tiles0[i].alpha_tile_id.0;
                    assert(fills1[k0] == fills0[k0]);
                }
            }
            assert forall|i: int, j: int| 0 <= i < tiles1.len() && 0 <= j < tiles1.len() && i != j
                && #[trigger] assigned(tiles1, i) && #[trigger] assigned(tiles1, j)
                implies tiles1[i].alpha_tile_id.0 != tiles1[j].alpha_tile_id.0 by {
                if i != idx && j != idx {
                    assert(tiles1[i] == tiles0[i] && tiles1[j] == tiles0[j]);
                    assert(assigned(tiles0, i) && assigned(tiles0, j));
                } else if assigned(tiles0, idx) {
                    assert(tiles1[i].alpha_tile_id == tiles0[i].alpha_tile_id);
                    assert(tiles1[j].alpha_tile_id == tiles0[j].alpha_tile_id);
                    assert(assigned(tiles0, i) && assigned(tiles0, j));
                } else if i == idx {
                    assert(tiles1[j] == tiles0[j]);
                    assert(assigned(tiles0, j));
                    assert(issued0.contains(tiles0[j].alpha_tile_id.0));
                } else {
                    assert(tiles1[i] == tiles0[i]);
                    assert(assigned(tiles0, i));
                    assert(issued0.contains(tiles0[i].alpha_tile_id.0));
                }
            }
        }
    }

    /// Adds `delta` to the backdrop of tile `tile_coords`; for a tile above the tile
    /// map, to the backdrop of its column. Tiles beside or below the map are ignored.
    pub fn adjust_alpha_tile_backdrop(&mut self, tile_coords: Vector2I, delta: i8)
        requires
            old(self).wf(),
            ({
                let rect = old(self).built_path.tiles.rect;
                let ox = tile_coords.x - rect.origin_x;
                let oy = tile_coords.y - rect.origin_y;
                &&& (0 <= ox < rect.width && oy < 0) ==> i32::MIN <= old(self).built_path.data.backdrops@[ox] + delta <= i32::MAX
                &&& rect.contains(tile_coords.x as int, tile_coords.y as int) ==> i8::MIN
                    <= old(self).built_path.tiles.data@[rect.index_of(tile_coords.x as int, tile_coords.y as int)].backdrop
                    + delta <= i8::MAX
            }),
        ensures
            final(self).wf(),
            final(self).built_path.tiles.rect == old(self).built_path.tiles.rect,
            final(self).built_path.occluders == old(self).built_path.occluders,
            final(self).built_path.fill_rule == old(self).built_path.fill_rule,
            final(self).built_path.clip_tiles == old(self).built_path.clip_tiles,
            final(self).fills@ == old(self).fills@,
            final(self).bounds == old(self).bounds,
            ({
                let rect = old(self).built_path.tiles.rect;
                let ox = tile_coords.x - rect.origin_x;
                let oy = tile_coords.y - rect.origin_y;
                let old_data = old(self).built_path.tiles.data@;
                let old_bd = old(self).built_path.data.backdrops@;
                if ox < 0 || ox >= rect.width || oy >= rect.height {
                    final(self).built_path.tiles.data@ == old_data && final(self).built_path.data.backdrops@ == old_bd
                } else if oy < 0 {
                    &&& final(self).built_path.tiles.data@ == old_data
                    &&& final(self).built_path.data.backdrops@ == old_bd.update(ox, (old_bd[ox] + delta) as i32)
                } else {
                    let idx = rect.index_of(tile_coords.x as int, tile_coords.y as int);
                    &&& final(self).built_path.data.backdrops@ == old_bd
                    &&& final(self).built_path.tiles.data@ == old_data.update(
                        idx,
                        TileObjectPrimitive { backdrop: (old_data[idx].backdrop + delta) as i8, ..old_data[idx] },
                    )
                }
            }),
    {
        let rect = self.built_path.tiles.rect;
        let ox = tile_coords.x as i64 - rect.origin_x as i64;
        let oy = tile_coords.y as i64 - rect.origin_y as i64;
        if ox < 0 || ox >= rect.width as i64 || oy >= rect.height as i64 {
            return;
        }
        if oy < 0 {
            let b = self.built_path.data.backdrops[ox as usize];
            self.built_path.data.backdrops.set(ox as usize, b + delta as i32);
            return;
        }
        let local_tile_index = self.built_path.tiles.coords_to_index(tile_coords.x, tile_coords.y).unwrap();
        let tile = self.built_path.tiles.data[local_tile_index];
        let new_tile = TileObjectPrimitive { backdrop: tile.backdrop + delta, ..tile };
        self.built_path.tiles.data.set(local_tile_index, new_tile);
        proof {
            assert forall|i: int| 0 <= i < self.built_path.tiles.data@.len() implies {
                &&& (#[trigger] self.built_path.tiles.data@[i]).tile_x == self.built_path.tiles.rect.x_of(i)
                &&& self.built_path.tiles.data@[i].tile_y == self.built_path.tiles.rect.y_of(i)
            } by {
                assert(old(self).built_path.tiles.data@[i].tile_x == old(self).built_path.tiles.rect.x_of(i));
            }
        }
    }
}

/// The clip record of a draw tile: its own alpha tile and winding, and those of the
/// clip path's tile at the same coordinates (none, with winding zero, where the clip
/// path has no tile there).
pub open spec fn clip_record(tile: TileObjectPrimitive, clip: BuiltPath) -> Clip {
    let rect = clip.tiles.rect;
    if rect.contains(tile.tile_x as int, tile.tile_y as int) {
        let c = clip.tiles.data@[rect.index_of(tile.tile_x as int, tile.tile_y as int)];
        Clip {
            dest_tile_id: tile.alpha_tile_id,
            dest_backdrop: tile.backdrop as i32,
            src_tile_id: c.alpha_tile_id,
            src_backdrop: c.backdrop as i32,
        }
    } else {
        Clip {
            dest_tile_id: tile.alpha_tile_id,
            dest_backdrop: tile.backdrop as i32,
            src_tile_id: AlphaTileId(INVALID_ALPHA_TILE),
            src_backdrop: 0,
        }
    }
}

impl BuiltPath {
    /// Fills the clip records of a clipped draw path from its tiles and those of its
    /// clip path.
    pub fn resolve_clip_tiles(&mut self, clip: &BuiltPath)
        requires
            old(self).wf(),
            old(self).clip_tiles.is_some(),
            clip.wf(),
        ensures
            final(self).wf(),
            final(self).tiles == old(self).tiles,
            final(self).data.backdrops@ == old(self).data.backdrops@,
            final(self).occluders == old(self).occluders,
            final(self).fill_rule == old(self).fill_rule,
            final(self).clip_tiles.is_some(),
            final(self).clip_tiles.unwrap().rect == old(self).tiles.rect,
            final(self).clip_tiles.unwrap().data@.len() == old(self).tiles.data@.len(),
            forall|i: int| 0 <= i < old(self).tiles.data@.len() ==> #[trigger] final(self).clip_tiles.unwrap().data@[i]
                == clip_record(old(self).tiles.data@[i], *clip),
    {
        let n = self.tiles.data.len();
        let mut records: Vec<Clip> = Vec::new();
        let mut i: usize = 0;
        while i < n
            invariant
                n == self.tiles.data@.len(),
                i <= n,
                self.wf(),
                clip.wf(),
                records@.len() == i,
                forall|j: int| 0 <= j < i ==> #[trigger] records@[j] == clip_record(self.tiles.data@[j], *clip),
            decreases n - i,
        {
            let tile = self.tiles.data[i];
            let record = match clip.tiles.coords_to_index(tile.tile_x as i32, tile.tile_y as i32) {
                Some(index) => {
                    let c = clip.tiles.data[index];
                    Clip {
                        dest_tile_id: tile.alpha_tile_id,
                        dest_backdrop: tile.backdrop as i32,
                        src_tile_id: c.alpha_tile_id,
                        src_backdrop: c.backdrop as i32,
                    }
                },
                None => Clip {
                    dest_tile_id: tile.alpha_tile_id,
                    dest_backdrop: tile.backdrop as i32,
                    src_tile_id: AlphaTileId(0xffff_ffff),
                    src_backdrop: 0,
                },
            };
            records.push(record);
            i = i + 1;
        }
        self.clip_tiles = Some(DenseTileMap { data: records, rect: self.tiles.rect });
    }
}

/// A draw path after tiling, with what batching compares.
pub struct BuiltDrawPath {
    pub path: BuiltPath,
    pub clip_path_id: Option<PathIndex>,
    pub blend_mode: BlendMode,
    pub filter: crate::gpu_data::Filter,
    pub color_texture: Option<crate::gpu_data::TileBatchTexture>,
    pub mask_0_fill_rule: FillRule,
}

/// What the GPU takes over from the CPU.
#[derive(Clone, Copy, PartialEq, Eq, Debug)]
pub struct RendererGPUFeatures {
    /// Backdrops, Z-buffer and clips are computed on the GPU.
    pub prepare_tiles_on_gpu: bool,
}

/// Some tile of `tiles` is solid and lies at `(x, y)`.
pub open spec fn solid_tile_at(tiles: Seq<TileObjectPrimitive>, x: int, y: int) -> bool {
    exists|k: int| 0 <= k < tiles.len() && (#[trigger] tiles[k]).is_solid() && tiles[k].tile_x == x
        && tiles[k].tile_y == y
}

/// Some of the first `n` tiles of `tiles` is solid and lies at `(x, y)`.
pub open spec fn solid_tile_among(tiles: Seq<TileObjectPrimitive>, n: int, x: int, y: int) -> bool {
    exists|k: int| 0 <= k < n && (#[trigger] tiles[k]).is_solid() && tiles[k].tile_x == x
        && tiles[k].tile_y == y
}

/// The Z value of a tile after a path with index `depth` is recorded: raised to
/// `depth` where the path has a solid tile there.
pub open spec fn z_after(old_z: i32, covered: bool, depth: int) -> i32 {
    if covered && depth > old_z { depth as i32 } else { old_z }
}

impl PrepareTilesBatch {
    pub open spec fn wf(&self) -> bool {
        &&& match self.modal {
            PrepareTilesModalInfo::CPU(cpu) => cpu.z_buffer.wf(),
            PrepareTilesModalInfo::GPU(gpu) => gpu.propagate_metadata@.len() == self.path_count,
        }
        &&& self.clipped_path_info is Some ==> (self.clipped_path_info.unwrap().clips is Some
            <==> self.modal is CPU)
        &&& self.clipped_path_info is Some ==> self.clipped_path_info.unwrap().clip_batch_id == TileBatchId(0)
    }

    /// An empty batch; on the CPU its Z-buffer covers `tile_rect` and holds zeros.
    pub fn new(batch_id: TileBatchId, tile_rect: TileRect, gpu_features: RendererGPUFeatures) -> (r: PrepareTilesBatch)
        requires
            tile_rect.wf(),
        ensures
            r.wf(),
            r.batch_id == batch_id,
            r.path_count == 0,
            r.tiles@.len() == 0,
            r.clipped_path_info.is_none(),
            gpu_features.prepare_tiles_on_gpu <==> r.modal is GPU,
            r.modal matches PrepareTilesModalInfo::GPU(g) ==> g.backdrops@.len() == 0 && g.propagate_metadata@.len() == 0,
            r.modal matches PrepareTilesModalInfo::CPU(c) ==> c.z_buffer.rect == tile_rect
                && forall|i: int| 0 <= i < c.z_buffer.data@.len() ==> #[trigger] c.z_buffer.data@[i] == 0,
    {
        PrepareTilesBatch {
            batch_id,
            path_count: 0,
            tiles: Vec::new(),
            modal: if gpu_features.prepare_tiles_on_gpu {
                PrepareTilesModalInfo::GPU(PrepareTilesGPUInfo {
                    backdrops: Vec::new(),
                    propagate_metadata: Vec::new(),
                })
            } else {
                PrepareTilesModalInfo::CPU(PrepareTilesCPUInfo {
                    z_buffer: DenseTileMap::filled(0i32, tile_rect),
                })
            },
            clipped_path_info: None,
        }
    }

    /// Adds a path's tiles to the batch and returns the path's index in it. On the
    /// CPU, an occluding path raises the Z value of each tile where it is solid to its
    /// index; on the GPU, its metadata and column backdrops are recorded instead.
    pub fn push(
        &mut self,
        path: &BuiltPath,
        clip_path_id: Option<PathIndex>,
        gpu_features: RendererGPUFeatures,
    ) -> (r: PathIndex)
        requires
            old(self).wf(),
            path.wf(),
            old(self).path_count < i32::MAX,
            gpu_features.prepare_tiles_on_gpu <==> old(self).modal is GPU,
            old(self).modal matches PrepareTilesModalInfo::CPU(c) ==> path.occluders.is_some()
                ==> forall|k: int| 0 <= k < path.tiles.data@.len() && (#[trigger] path.tiles.data@[k]).is_solid()
                ==> c.z_buffer.rect.contains(path.tiles.data@[k].tile_x as int, path.tiles.data@[k].tile_y as int),
            clip_path_id.is_some() && !gpu_features.prepare_tiles_on_gpu ==> path.clip_tiles.is_some(),
        ensures
            final(self).wf(),
            r.0 == old(self).path_count,
            final(self).path_count == old(self).path_count + 1,
            final(self).batch_id == old(self).batch_id,
            final(self).tiles@ == old(self).tiles@ + path.tiles.data@,
            old(self).modal matches PrepareTilesModalInfo::CPU(c0) ==> final(self).modal matches PrepareTilesModalInfo::CPU(c1)
                && c1.z_buffer.rect == c0.z_buffer.rect
                && c1.z_buffer.data@.len() == c0.z_buffer.data@.len()
                && forall|j: int| 0 <= j < c1.z_buffer.data@.len() ==> #[trigger] c1.z_buffer.data@[j] == z_after(
                    c0.z_buffer.data@[j],
                    path.occluders.is_some() && solid_tile_at(path.tiles.data@, c0.z_buffer.rect.x_of(j), c0.z_buffer.rect.y_of(j)),
                    old(self).path_count as int,
                ),
            old(self).modal matches PrepareTilesModalInfo::GPU(g0) ==> final(self).modal matches PrepareTilesModalInfo::GPU(g1)
                && g1.backdrops@ == g0.backdrops@ + path.data.backdrops@
                && g1.propagate_metadata@ == g0.propagate_metadata@.push(PropagateMetadata {
                    tile_rect: path.tiles.rect,
                    tile_offset: old(self).tiles@.len() as u32,
                    backdrops_offset: g0.backdrops@.len() as u32,
                    z_write: if path.occluders.is_some() { 1u32 } else { 0u32 },
                    clip_path: match clip_path_id { Some(c) => c, None => PathIndex(0xffff_ffff) },
                }),
            clip_path_id.is_none() ==> final(self).clipped_path_info == old(self).clipped_path_info,
            clip_path_id.is_some() ==> final(self).clipped_path_info is Some,
            clip_path_id.is_some() ==> ({
                let info = final(self).clipped_path_info.unwrap();
                let old_paths = if old(self).clipped_path_info is Some { old(self).clipped_path_info.unwrap().clipped_paths@ } else { Seq::empty() };
                let old_max = if old(self).clipped_path_info is Some { old(self).clipped_path_info.unwrap().max_clipped_tile_count as int } else { 0 };
                &&& info.clip_batch_id == TileBatchId(0)
                &&& info.clipped_paths@ == old_paths.push(r)
                &&& info.max_clipped_tile_count == if old_max + path.tiles.data@.len() > u32::MAX {
                    u32::MAX as int
                } else {
                    old_max + path.tiles.data@.len()
                }
                &&& info.clips.is_some() == !gpu_features.prepare_tiles_on_gpu
                &&& info.clips.is_some() ==> info.clips.unwrap()@ == (if old(self).clipped_path_info is Some {
                    old(self).clipped_path_info.unwrap().clips.unwrap()@
                } else {
                    Seq::empty()
                }) + path.clip_tiles.unwrap().data@
            }),
    {
        let z_write = path.occluders.is_some();
        let path_index = PathIndex(self.path_count);
        let tile_count = self.tiles.len();
        match &mut self.modal {
            PrepareTilesModalInfo::CPU(cpu_info) => {
                if z_write {
                    record_occluders(&mut cpu_info.z_buffer, &path.tiles.data, path_index.0 as i32);
                } else {
                    proof {
                        assert forall|j: int| 0 <= j < cpu_info.z_buffer.data@.len() implies #[trigger] cpu_info.z_buffer.data@[j] == z_after(
                            cpu_info.z_buffer.data@[j], false, path_index.0 as int) by {}
                    }
                }
            },
            PrepareTilesModalInfo::GPU(gpu_info) => {
                let metadata = PropagateMetadata {
                    tile_rect: path.tiles.rect,
                    tile_offset: #[verifier::truncate] (tile_count as u32),
                    backdrops_offset: #[verifier::truncate] (gpu_info.backdrops.len() as u32),
                    z_write: if z_write { 1u32 } else { 0u32 },
                    clip_path: match clip_path_id {
                        Some(c) => c,
                        None => PathIndex(0xffff_ffff),
                    },
                };
                gpu_info.propagate_metadata.push(metadata);
                extend_copied(&mut gpu_info.backdrops, &path.data.backdrops);
            },
        }
        extend_copied(&mut self.tiles, &path.tiles.data);
        if clip_path_id.is_some() {
            if self.clipped_path_info.is_none() {
                self.clipped_path_info = Some(ClippedPathInfo {
                    clip_batch_id: TileBatchId(0),
                    clipped_paths: Vec::new(),
                    max_clipped_tile_count: 0,
                    clips: if !gpu_features.prepare_tiles_on_gpu { Some(Vec::new()) } else { None },
                });
            }
            match &mut self.clipped_path_info {
                Some(info) => {
                    info.clipped_paths.push(path_index);
                    proof {
                        crate::tile_map::lemma_area_fits(path.tiles.rect);
                    }
                    info.max_clipped_tile_count = info.max_clipped_tile_count.saturating_add(path.tiles.data.len() as u32);
                    match &mut info.clips {
                        Some(dest_clips) => {
                            match &path.clip_tiles {
                                Some(src_tiles) => extend_copied(dest_clips, &src_tiles.data),
                                None => {},
                            }
                        },
                        None => {},
                    }
                },
                None => {},
            }
        }
        self.path_count = self.path_count + 1;
        path_index
    }
}

impl PrepareTilesCPUInfo {
    /// Whether the tile at `coords` is culled for the path with index `path_index`: a
    /// later occluding path covers it.
    pub fn is_occluded(&self, coords: Vector2I, path_index: PathIndex) -> (r: bool)
        requires
            self.z_buffer.wf(),
            self.z_buffer.rect.contains(coords.x as int, coords.y as int),
        ensures
            r == (self.z_buffer.data@[self.z_buffer.rect.index_of(coords.x as int, coords.y as int)]
                > path_index.0),
    {
        let index = self.z_buffer.coords_to_index(coords.x, coords.y).unwrap();
        let z = self.z_buffer.data[index];
        z as i64 > path_index.0 as i64
    }
}

/// Appends copies of `src` to `dest`.
fn extend_copied<T: Copy>(dest: &mut Vec<T>, src: &Vec<T>)
    ensures
        final(dest)@ == old(dest)@ + src@,
{
    let mut i: usize = 0;
    let ghost start = dest@;
    while i < src.len()
        invariant
            i <= src@.len(),
            dest@ == start + src@.take(i as int),
            start == old(dest)@,
        decreases src@.len() - i,
    {
        dest.push(src[i]);
        proof {
            assert(src@.take(i + 1) =~= src@.take(i as int).push(src@[i as int]));
        }
        i = i + 1;
    }
    proof {
        assert(src@.take(src@.len() as int) =~= src@);
    }
}

/// Raises the Z value of every tile where one of `tiles` is solid to `depth`.
fn record_occluders(z_buffer: &mut DenseTileMap<i32>, tiles: &Vec<TileObjectPrimitive>, depth: i32)
    requires
        old(z_buffer).wf(),
        forall|k: int| 0 <= k < tiles@.len() && (#[trigger] tiles@[k]).is_solid()
            ==> old(z_buffer).rect.contains(tiles@[k].tile_x as int, tiles@[k].tile_y as int),
    ensures
        final(z_buffer).wf(),
        final(z_buffer).rect == old(z_buffer).rect,
        final(z_buffer).data@.len() == old(z_buffer).data@.len(),
        forall|j: int| 0 <= j < final(z_buffer).data@.len() ==> #[trigger] final(z_buffer).data@[j] == z_after(
            old(z_buffer).data@[j],
            solid_tile_at(tiles@, old(z_buffer).rect.x_of(j), old(z_buffer).rect.y_of(j)),
            depth as int,
        ),
{
    let ghost rect = z_buffer.rect;
    let n = tiles.len();
    let mut k: usize = 0;
    while k < n
        invariant
            n == tiles@.len(),
            k <= n,
            z_buffer.wf(),
            z_buffer.rect == rect,
            rect == old(z_buffer).rect,
            z_buffer.data@.len() == old(z_buffer).data@.len(),
            forall|m: int| 0 <= m < tiles@.len() && (#[trigger] tiles@[m]).is_solid()
                ==> rect.contains(tiles@[m].tile_x as int, tiles@[m].tile_y as int),
            forall|j: int| 0 <= j < z_buffer.data@.len() ==> #[trigger] z_buffer.data@[j] == z_after(
                old(z_buffer).data@[j],
                solid_tile_among(tiles@, k as int, rect.x_of(j), rect.y_of(j)),
                depth as int,
            ),
        decreases n - k,
    {
        let tile = tiles[k];
        let ghost before = z_buffer.data@;
        if tile.backdrop != 0 && tile.alpha_tile_id.0 == 0xffff_ffff {
            let index = z_buffer.coords_to_index(tile.tile_x as i32, tile.tile_y as i32).unwrap();
            let z = z_buffer.data[index];
            if depth > z {
                z_buffer.data.set(index, depth);
            }
            proof {
                assert forall|j: int| 0 <= j < z_buffer.data@.len() implies #[trigger] z_buffer.data@[j] == z_after(
                    old(z_buffer).data@[j],
                    solid_tile_among(tiles@, k + 1, rect.x_of(j), rect.y_of(j)),
                    depth as int,
                ) by {
                    lemma_coords_of_index(j, rect.width as int, rect.height as int);
                    if solid_tile_among(tiles@, k as int, rect.x_of(j), rect.y_of(j)) {
                        let w = choose|m: int| 0 <= m < k && (#[trigger] tiles@[m]).is_solid() && tiles@[m].tile_x == rect.x_of(j)
                            && tiles@[m].tile_y == rect.y_of(j);
                        assert(0 <= w < k + 1);
                    }
                    if j == index as int {
                        assert(rect.x_of(j) == tile.tile_x && rect.y_of(j) == tile.tile_y) by {
                            lemma_index_coords(rect, tile.tile_x as int, tile.tile_y as int);
                        }
                        assert(tiles@[k as int].is_solid());
                    } else {
                        if rect.x_of(j) == tile.tile_x && rect.y_of(j) == tile.tile_y {
                            lemma_coords_index(rect, j);
                        }
                        if solid_tile_among(tiles@, k + 1, rect.x_of(j), rect.y_of(j)) {
                            let w = choose|m: int| 0 <= m < k + 1 && (#[trigger] tiles@[m]).is_solid() && tiles@[m].tile_x == rect.x_of(j)
                                && tiles@[m].tile_y == rect.y_of(j);
                            if w == k {
                                assert(false);
                            }
                        }
                    }
                }
            }
        } else {
            proof {
                assert forall|j: int| 0 <= j < z_buffer.data@.len() implies #[trigger] z_buffer.data@[j] == z_after(
                    old(z_buffer).data@[j],
                    solid_tile_among(tiles@, k + 1, rect.x_of(j), rect.y_of(j)),
                    depth as int,
                ) by {
                    if solid_tile_among(tiles@, k as int, rect.x_of(j), rect.y_of(j)) {
                        let w = choose|m: int| 0 <= m < k && (#[trigger] tiles@[m]).is_solid() && tiles@[m].tile_x == rect.x_of(j)
                            && tiles@[m].tile_y == rect.y_of(j);
                        assert(0 <= w < k + 1);
                    }
                    if solid_tile_among(tiles@, k + 1, rect.x_of(j), rect.y_of(j)) {
                        let w = choose|m: int| 0 <= m < k + 1 && (#[trigger] tiles@[m]).is_solid() && tiles@[m].tile_x == rect.x_of(j)
                            && tiles@[m].tile_y == rect.y_of(j);
                        assert(w != k);
                    }
                }
            }
        }
        k = k + 1;
    }
    proof {
        assert forall|j: int| 0 <= j < z_buffer.data@.len() implies
            solid_tile_among(tiles@, n as int, rect.x_of(j), rect.y_of(j)) == solid_tile_at(tiles@, rect.x_of(j), rect.y_of(j)) by {}
    }
}

/// The tile at `(x, y)` of `rect` sits at the coordinates that its position names.
proof fn lemma_index_coords(rect: TileRect, x: int, y: int)
    requires
        rect.wf(),
        rect.contains(x, y),
    ensures
        rect.x_of(rect.index_of(x, y)) == x,
        rect.y_of(rect.index_of(x, y)) == y,
{
    lemma_split_index(y - rect.origin_y, x - rect.origin_x, rect.width as int);
}

/// Position `j` of `rect` is the position of the tile that it names.
proof fn lemma_coords_index(rect: TileRect, j: int)
    requires
        rect.wf(),
        0 <= j < rect.area(),
    ensures
        rect.index_of(rect.x_of(j), rect.y_of(j)) == j,
{
    lemma_coords_of_index(j, rect.width as int, rect.height as int);
}

/// Tile `i` of `tiles` has an alpha tile.
pub open spec fn assigned(tiles: Seq<TileObjectPrimitive>, i: int) -> bool {
    tiles[i].alpha_tile_id.0 != INVALID_ALPHA_TILE
}

/// Some tile of `tiles` has alpha tile `a`.
pub open spec fn names_tile(tiles: Seq<TileObjectPrimitive>, a: u32) -> bool {
    exists|i: int| 0 <= i < tiles.len() && #[trigger] assigned(tiles, i) && tiles[i].alpha_tile_id.0 == a
}

/// Some fill of `fills` is for alpha tile `a`.
pub open spec fn has_fill(fills: Seq<Fill>, a: u32) -> bool {
    exists|k: int| 0 <= k < fills.len() && (#[trigger] fills[k]).alpha_tile_index == a
}

/// Every fill names the alpha tile of one of `tiles`, every tile with an alpha tile
/// has a fill, and the alpha tiles are distinct and among `issued`.
pub open spec fn alpha_tiles_match(tiles: Seq<TileObjectPrimitive>, fills: Seq<Fill>, issued: Set<u32>) -> bool {
    &&& forall|k: int| 0 <= k < fills.len() ==> names_tile(tiles, (#[trigger] fills[k]).alpha_tile_index)
    &&& forall|i: int| 0 <= i < tiles.len() && #[trigger] assigned(tiles, i)
        ==> issued.contains(tiles[i].alpha_tile_id.0) && has_fill(fills, tiles[i].alpha_tile_id.0)
    &&& forall|i: int, j: int| 0 <= i < tiles.len() && 0 <= j < tiles.len() && i != j
        && #[trigger] assigned(tiles, i) && #[trigger] assigned(tiles, j)
        ==> tiles[i].alpha_tile_id.0 != tiles[j].alpha_tile_id.0
}

/// Consistency of alpha tiles carries over to a builder with the same fills and the
/// same alpha tile in each tile.
pub proof fn lemma_consistent_same_ids(b0: &ObjectBuilder, b1: &ObjectBuilder, issued: Set<u32>)
    requires
        b0.alpha_tiles_consistent(issued),
        b1.fills@ == b0.fills@,
        b1.built_path.tiles.data@.len() == b0.built_path.tiles.data@.len(),
        forall|i: int| 0 <= i < b1.built_path.tiles.data@.len() ==> (#[trigger] b1.built_path.tiles.data@[i]).alpha_tile_id
            == b0.built_path.tiles.data@[i].alpha_tile_id,
    ensures
        b1.alpha_tiles_consistent(issued),
{
    lemma_match_same_ids(b0.built_path.tiles.data@, b1.built_path.tiles.data@, b1.fills@, issued);
}

proof fn lemma_match_same_ids(t0: Seq<TileObjectPrimitive>, t1: Seq<TileObjectPrimitive>, f: Seq<Fill>, issued: Set<u32>)
    requires
        alpha_tiles_match(t0, f, issued),
        t1.len() == t0.len(),
        forall|i: int| 0 <= i < t1.len() ==> (#[trigger] t1[i]).alpha_tile_id == t0[i].alpha_tile_id,
    ensures
        alpha_tiles_match(t1, f, issued),
{
    assert forall|k: int| 0 <= k < f.len() implies names_tile(t1, (#[trigger] f[k]).alpha_tile_index) by {
        assert(names_tile(t0, f[k].alpha_tile_index));
        let i0 = choose|i: int| 0 <= i < t0.len() && #[trigger] assigned(t0, i) && t0[i].alpha_tile_id.0 == f[k].alpha_tile_index;
        assert(t1[i0].alpha_tile_id == t0[i0].alpha_tile_id);
        assert(assigned(t1, i0));
    }
    assert forall|i: int| 0 <= i < t1.len() && #[trigger] assigned(t1, i)
        implies issued.contains(t1[i].alpha_tile_id.0) && has_fill(f, t1[i].alpha_tile_id.0) by {
        assert(t1[i].alpha_tile_id == t0[i].alpha_tile_id);
        assert(assigned(t0, i));
    }
    assert forall|i: int, j: int| 0 <= i < t1.len() && 0 <= j < t1.len() && i != j
        && #[trigger] assigned(t1, i) && #[trigger] assigned(t1, j)
        implies t1[i].alpha_tile_id.0 != t1[j].alpha_tile_id.0 by {
        assert(t1[i].alpha_tile_id == t0[i].alpha_tile_id);
        assert(t1[j].alpha_tile_id == t0[j].alpha_tile_id);
        assert(assigned(t0, i) && assigned(t0, j));
    }
}

/// Position `dy * w + dx` of a row-major rectangle `w` wide lies in row `dy`, column `dx`.
pub proof fn lemma_split_index(dy: int, dx: int, w: int)
    requires
        0 <= dy,
        0 <= dx < w,
    ensures
        (dy * w + dx) % w == dx,
        (dy * w + dx) / w == dy,
{
    vstd::arithmetic::div_mod::lemma_fundamental_div_mod_converse(dy * w + dx, w, dy, dx);
    assert(dy * w == w * dy) by (nonlinear_arith);
}

} // verus!
