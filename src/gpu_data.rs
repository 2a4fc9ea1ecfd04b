//! Packed records handed to the GPU stage, and the alpha tile identifiers.

use vstd::prelude::*;
use crate::tile_map::DenseTileMap;
use crate::tile_map::TileRect;
use crate::blend::BlendMode;
use crate::blend::PaintCompositeOp;
use crate::scene::RenderTargetId;

verus! {

/// Number of independent alpha tile counters (levels).
pub const ALPHA_TILE_LEVEL_COUNT: usize = 2;

/// Number of alpha tiles that one level can issue.
pub const ALPHA_TILES_PER_LEVEL: usize = 0x8000_0000;

pub const TILE_CTRL_MASK_MASK: i32 = 0x3;
pub const TILE_CTRL_MASK_WINDING: i32 = 0x1;
pub const TILE_CTRL_MASK_EVEN_ODD: i32 = 0x2;
pub const TILE_CTRL_MASK_0_SHIFT: i32 = 0;

/// The value of an unassigned alpha tile identifier.
pub const INVALID_ALPHA_TILE: u32 = 0xffff_ffff;

/// Identifies one texture page.
#[derive(Clone, Copy, PartialEq, Eq, Structural, Debug, Default)]
pub struct TexturePageId(pub u32);

/// The size of a texture page, in texels.
#[derive(Clone, Copy, PartialEq, Eq, Debug)]
pub struct TexturePageDescriptor {
    pub size: crate::tile_map::Vector2I,
}

/// Identifies a path within a batch; `PathIndex(!0)` stands for no path.
#[derive(Clone, Copy, PartialEq, Eq, Structural, Hash, Debug)]
pub struct PathIndex(pub u32);

/// Identifies a batch of tiles.
#[derive(Clone, Copy, PartialEq, Eq, Structural, Debug)]
pub struct TileBatchId(pub u32);

/// Identifier of a tile that needs per-pixel coverage; `!0` means unassigned.
#[derive(Clone, Copy, PartialEq, Eq, Debug)]
pub struct AlphaTileId(pub u32);

/// The identifier that level `level` issues as its `index`-th alpha tile.
pub open spec fn alpha_tile_value(level: int, index: int) -> int {
    level * ALPHA_TILES_PER_LEVEL as int + index
}

/// Identifiers issued at different positions differ, and none that counters may
/// issue is the unassigned value.
pub proof fn lemma_alpha_tile_values_distinct(l1: int, i1: int, l2: int, i2: int)
    requires
        0 <= l1 < ALPHA_TILE_LEVEL_COUNT,
        0 <= l2 < ALPHA_TILE_LEVEL_COUNT,
        0 <= i1 < ALPHA_TILES_PER_LEVEL,
        0 <= i2 < ALPHA_TILES_PER_LEVEL,
        alpha_tile_value(l1, i1) < INVALID_ALPHA_TILE,
        alpha_tile_value(l2, i2) < INVALID_ALPHA_TILE,
    ensures
        (l1 != l2 || i1 != i2) ==> alpha_tile_value(l1, i1) != alpha_tile_value(l2, i2),
        alpha_tile_value(l1, i1) != INVALID_ALPHA_TILE,
{
}

/// The set of identifiers issued by counters that stand at `next`.
pub open spec fn issued_ids(next0: int, next1: int) -> Set<u32> {
    Set::new(|v: u32| (0 <= v < next0) || (ALPHA_TILES_PER_LEVEL as int <= v
        < ALPHA_TILES_PER_LEVEL as int + next1))
}

/// The shared counters from which the alpha tiles of one scene build are allocated.
pub struct AlphaTileCounters {
    pub next: [usize; 2],
}

impl AlphaTileCounters {
    pub open spec fn wf(&self) -> bool {
        &&& self.next[0] <= ALPHA_TILES_PER_LEVEL
        &&& self.next[1] <= ALPHA_TILES_PER_LEVEL
    }

    /// Every identifier that these counters have handed out.
    pub open spec fn issued(&self) -> Set<u32> {
        issued_ids(self.next[0] as int, self.next[1] as int)
    }

    /// Counters that have issued nothing yet.
    pub fn new() -> (r: AlphaTileCounters)
        ensures
            r.wf(),
            r.next[0] == 0,
            r.next[1] == 0,
            r.issued() == Set::<u32>::empty(),
    {
        let r = AlphaTileCounters { next: [0, 0] };
        assert(r.issued() =~= Set::<u32>::empty());
        r
    }

    /// Level `level` can issue one more identifier, other than the unassigned value.
    pub open spec fn can_issue(&self, level: int) -> bool {
        &&& self.next[level] < ALPHA_TILES_PER_LEVEL
        &&& alpha_tile_value(level, self.next[level] as int) < INVALID_ALPHA_TILE
    }

    /// Whether level `level` can still issue an identifier.
    pub fn has_room(&self, level: usize) -> (r: bool)
        requires
            level < ALPHA_TILE_LEVEL_COUNT,
        ensures
            r == self.can_issue(level as int),
    {
        let next = self.next[level];
        next < ALPHA_TILES_PER_LEVEL && (level == 0 || next < ALPHA_TILES_PER_LEVEL - 1)
    }
}

impl AlphaTileId {
    /// Issues the next identifier of level `level`.
    ///
    /// The result was not issued before by these counters and is never the
    /// unassigned value.
    pub fn new(next_alpha_tile_index: &mut AlphaTileCounters, level: usize) -> (r: AlphaTileId)
        requires
            old(next_alpha_tile_index).wf(),
            level < ALPHA_TILE_LEVEL_COUNT,
            old(next_alpha_tile_index).can_issue(level as int),
        ensures
            final(next_alpha_tile_index).wf(),
            r.0 as int == alpha_tile_value(level as int, old(next_alpha_tile_index).next[level as int] as int),
            final(next_alpha_tile_index).next[level as int] == old(next_alpha_tile_index).next[level as int] + 1,
            final(next_alpha_tile_index).next[1 - level as int] == old(next_alpha_tile_index).next[1 - level as int],
            !old(next_alpha_tile_index).issued().contains(r.0),
            final(next_alpha_tile_index).issued() == old(next_alpha_tile_index).issued().insert(r.0),
            r.0 != INVALID_ALPHA_TILE,
    {
        let alpha_tile_index = next_alpha_tile_index.next[level];
        next_alpha_tile_index.next[level] = alpha_tile_index + 1;
        let r = AlphaTileId((level * ALPHA_TILES_PER_LEVEL + alpha_tile_index) as u32);
        assert(next_alpha_tile_index.issued() =~= old(next_alpha_tile_index).issued().insert(r.0));
        r
    }

    /// The unassigned identifier.
    pub fn invalid() -> (r: AlphaTileId)
        ensures
            r.0 == INVALID_ALPHA_TILE,
    {
        AlphaTileId(0xffff_ffff)
    }

    /// The alpha tile page: the upper 16 bits.
    pub fn page(self) -> (r: u16)
        ensures
            r as int == self.0 as int / 0x10000,
    {
        let v: u32 = self.0;
        assert(v >> 16u32 == v / 0x10000) by (bit_vector);
        assert(v >> 16u32 <= 0xffff) by (bit_vector);
        (v >> 16u32) as u16
    }

    /// The tile within its page: the lower 16 bits.
    pub fn tile(self) -> (r: u16)
        ensures
            r as int == self.0 as int % 0x10000,
    {
        let v: u32 = self.0;
        assert(v & 0xffffu32 == v % 0x10000) by (bit_vector);
        (v & 0xffffu32) as u16
    }

    /// Whether the identifier is assigned.
    pub fn is_valid(self) -> (r: bool)
        ensures
            r == (self.0 != INVALID_ALPHA_TILE),
    {
        self.0 < 0xffff_ffff
    }
}

/// Per-tile record of a path, in the layout that the GPU reads.
#[derive(Clone, Copy, PartialEq, Eq, Debug)]
pub struct TileObjectPrimitive {
    pub tile_x: i16,
    pub tile_y: i16,
    pub alpha_tile_id: AlphaTileId,
    pub path_id: u32,
    pub color: u16,
    pub backdrop: i8,
    pub ctrl: u8,
}

impl TileObjectPrimitive {
    /// A tile with no alpha tile and a nonzero backdrop: fully covered, no per-pixel work.
    pub open spec fn is_solid(&self) -> bool {
        self.backdrop != 0 && self.alpha_tile_id.0 == INVALID_ALPHA_TILE
    }
}

/// A line segment in 8.8 fixed-point coordinates local to one tile.
#[derive(Clone, Copy, PartialEq, Eq, Debug, Default)]
pub struct LineSegmentU16 {
    pub from_x: u16,
    pub from_y: u16,
    pub to_x: u16,
    pub to_y: u16,
}

/// A line segment that contributes coverage to one alpha tile.
#[derive(Clone, Copy, PartialEq, Eq, Debug, Default)]
pub struct Fill {
    pub line_segment: LineSegmentU16,
    /// The alpha tile; in the compute phase this is the next fill of the same tile.
    pub alpha_tile_index: u32,
}

/// The coverage of a clipped draw tile: its own tile combined with its clip path's.
#[derive(Clone, Copy, PartialEq, Eq, Debug)]
pub struct Clip {
    pub dest_tile_id: AlphaTileId,
    pub dest_backdrop: i32,
    pub src_tile_id: AlphaTileId,
    pub src_backdrop: i32,
}

impl Clip {
    /// The record of a tile with nothing assigned yet.
    pub open spec fn unassigned() -> Clip {
        Clip {
            dest_tile_id: AlphaTileId(INVALID_ALPHA_TILE),
            dest_backdrop: 0,
            src_tile_id: AlphaTileId(INVALID_ALPHA_TILE),
            src_backdrop: 0,
        }
    }
}

impl Default for Clip {
    fn default() -> (r: Clip)
        ensures
            r == Clip::unassigned(),
    {
        Clip {
            dest_tile_id: AlphaTileId(0xffff_ffff),
            dest_backdrop: 0,
            src_tile_id: AlphaTileId(0xffff_ffff),
            src_backdrop: 0,
        }
    }
}

/// Which of the two inputs of a clip a tile copy feeds; the order is significant.
#[derive(Clone, Copy, PartialEq, Eq, PartialOrd, Ord, Debug)]
pub enum ClipBatchKind {
    Draw,
    Clip,
}

/// Groups clip tile copies by source and destination page.
#[derive(Clone, Copy, PartialEq, Eq, PartialOrd, Ord, Debug)]
pub struct ClipBatchKey {
    pub dest_page: u16,
    pub src_page: u16,
    pub kind: ClipBatchKind,
}

/// Per-path data that the GPU preparation stage needs to find the path's tiles.
#[derive(Clone, Copy, PartialEq, Eq, Debug)]
pub struct PropagateMetadata {
    pub tile_rect: TileRect,
    pub tile_offset: u32,
    pub backdrops_offset: u32,
    pub z_write: u32,
    pub clip_path: PathIndex,
}

/// Where the tiles of a clipped draw path and of its clip path lie in the packed
/// tile buffers, for clipping on the GPU.
#[derive(Clone, Copy, PartialEq, Eq, Debug)]
pub struct ClipMetadata {
    pub draw_tile_rect: TileRect,
    pub clip_tile_rect: TileRect,
    pub draw_tile_offset: u32,
    pub clip_tile_offset: u32,
    pub pad0: u32,
    pub pad1: u32,
}

/// Information about a batch of tiles to be prepared on the CPU.
pub struct PrepareTilesCPUInfo {
    /// The Z-buffer used for occlusion culling: per tile, the greatest index of an
    /// occluding path that covers it.
    pub z_buffer: DenseTileMap<i32>,
}

/// Information about a batch of tiles to be prepared on the GPU.
pub struct PrepareTilesGPUInfo {
    /// Initial backdrop values for each tile column, packed together.
    pub backdrops: Vec<i32>,
    /// Per path, where its tiles and backdrops start in the packed buffers.
    pub propagate_metadata: Vec<PropagateMetadata>,
}

/// The part of a batch that depends on where tiles are prepared.
pub enum PrepareTilesModalInfo {
    CPU(PrepareTilesCPUInfo),
    GPU(PrepareTilesGPUInfo),
}

/// Information about clips applied to paths in a batch.
pub struct ClippedPathInfo {
    /// The batch that holds the clip paths.
    pub clip_batch_id: TileBatchId,
    /// The paths of this batch that have clips.
    pub clipped_paths: Vec<PathIndex>,
    /// Upper bound on the number of clipped tiles, used to size buffers.
    pub max_clipped_tile_count: u32,
    /// The clips, if computed on the CPU.
    pub clips: Option<Vec<Clip>>,
}

/// A batch of tiles to be prepared: backdrops, Z-buffer and clips.
pub struct PrepareTilesBatch {
    pub batch_id: TileBatchId,
    pub path_count: u32,
    pub tiles: Vec<TileObjectPrimitive>,
    pub modal: PrepareTilesModalInfo,
    pub clipped_path_info: Option<ClippedPathInfo>,
}

/// The filter that a batch is drawn with, by its index among the scene's filters;
/// `Filter(0)` is no filter.
#[derive(Clone, Copy, PartialEq, Eq, Structural, Debug)]
pub struct Filter(pub u32);

/// The color texture of a batch and how it is sampled and combined.
#[derive(Clone, Copy, PartialEq, Eq, Structural, Debug)]
pub struct TileBatchTexture {
    pub page: TexturePageId,
    /// Sampling flags as bits: repeat u, repeat v, nearest min, nearest mag.
    pub sampling_flags: u8,
    pub composite_op: PaintCompositeOp,
}

/// Information needed to draw a batch of tiles.
#[derive(Clone, Copy, PartialEq, Eq, Structural, Debug)]
pub struct DrawTileBatch {
    /// The batch, which a `PrepareTiles` command must have prepared before.
    pub tile_batch_id: TileBatchId,
    pub color_texture: Option<TileBatchTexture>,
    pub filter: Filter,
    pub blend_mode: BlendMode,
}

/// A command of the stream that the tile preparation and compositing stage executes.
pub enum RenderCommand {
    /// Starts rendering a frame.
    Start {
        /// The number of paths, clip paths included, that will be rendered.
        path_count: usize,
        /// Whether the destination framebuffer must be readable, because a path drawn
        /// outside every render target uses a blend mode that reads it.
        needs_readable_framebuffer: bool,
    },
    /// Adds fills to the queue.
    AddFills(Vec<Fill>),
    /// Flushes the queue of fills.
    FlushFills,
    /// Directs drawing to a render target.
    PushRenderTarget(RenderTargetId),
    /// Returns drawing to the previous render target.
    PopRenderTarget,
    /// Computes backdrops, Z-buffer and clips of a batch.
    PrepareTiles(PrepareTilesBatch),
    /// Draws a prepared batch.
    DrawTiles(DrawTileBatch),
    /// Marks that tile compositing is about to begin.
    BeginTileDrawing,
    /// Ends a frame; the build time is in nanoseconds.
    Finish { cpu_build_time: u64 },
}

} // verus!
