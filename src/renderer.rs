//! Sizing decisions of the GPU stage that need no device: tile counts of a
//! framebuffer, index buffers for instanced quads, and power-of-two growth.

use vstd::prelude::*;
use crate::tile_map::Vector2I;
use crate::allocator::StorageID;
use vec_map::VecMap;

verus! {

/// The number of tiles across and down a framebuffer of `pixel_size`, rounding up.
pub fn pixel_size_to_tile_size(pixel_size: Vector2I) -> (r: Vector2I)
    requires
        0 <= pixel_size.x <= i32::MAX - 15,
        0 <= pixel_size.y <= i32::MAX - 15,
    ensures
        r.x == (pixel_size.x + 15) / 16,
        r.y == (pixel_size.y + 15) / 16,
        r.x * 16 >= pixel_size.x,
        r.y * 16 >= pixel_size.y,
{
    let x = (pixel_size.x + 15) / 16;
    let y = (pixel_size.y + 15) / 16;
    Vector2I { x, y }
}

/// Whether `n` is a power of two.
pub open spec fn is_power_of_two(n: int) -> bool
    decreases n,
{
    if n <= 0 {
        false
    } else if n == 1 {
        true
    } else {
        n % 2 == 0 && is_power_of_two(n / 2)
    }
}

/// The smallest power of two that is at least `n` (1 for 0).
pub fn next_power_of_two(n: usize) -> (r: usize)
    requires
        n <= 0x4000_0000,
    ensures
        is_power_of_two(r as int),
        r >= n,
        r == 1 || r / 2 < n,
{
    let mut p: usize = 1;
    while p < n
        invariant
            is_power_of_two(p as int),
            1 <= p,
            p < 2 * n || p == 1,
            p == 1 || p / 2 < n,
            n <= 0x4000_0000,
        decreases 2 * n - p,
    {
        proof {
            assert((p * 2) / 2 == p);
            assert((p * 2) % 2 == 0);
        }
        p = p * 2;
    }
    p
}

/// The indices of two triangles for each of `length` quads of four vertices.
pub open spec fn quad_index(i: int) -> int {
    let q = i / 6;
    let k = i % 6;
    let corner: int = if k == 0 {
        0
    } else if k == 1 {
        1
    } else if k == 2 {
        2
    } else if k == 3 {
        1
    } else if k == 4 {
        3
    } else {
        2
    };
    4 * q + corner
}

/// Index data for `length` instanced quads: vertices `0, 1, 2` and `1, 3, 2` of each.
pub fn quad_vertex_indices(length: usize) -> (r: Vec<u32>)
    requires
        length <= 0x3fff_ffff,
    ensures
        r@.len() == 6 * length,
        forall|i: int| 0 <= i < r@.len() ==> r@[i] as int == #[trigger] quad_index(i),
{
    let mut indices: Vec<u32> = Vec::new();
    let mut index: u32 = 0;
    while (index as usize) < length
        invariant
            index as int <= length,
            length <= 0x3fff_ffff,
            indices@.len() == 6 * index,
            forall|i: int| 0 <= i < indices@.len() ==> indices@[i] as int == #[trigger] quad_index(i),
        decreases length - index as int,
    {
        let base = index * 4;
        let ghost start = indices@.len() as int;
        indices.push(base);
        indices.push(base + 1);
        indices.push(base + 2);
        indices.push(base + 1);
        indices.push(base + 3);
        indices.push(base + 2);
        proof {
            assert forall|i: int| 0 <= i < indices@.len() implies indices@[i] as int == #[trigger] quad_index(i) by {
                if i >= start {
                    assert((start + (i - start)) / 6 == index) by {
                        vstd::arithmetic::div_mod::lemma_fundamental_div_mod_converse(i, 6, index as int, i - start);
                    }
                    assert(i % 6 == i - start) by {
                        vstd::arithmetic::div_mod::lemma_fundamental_div_mod_converse(i, 6, index as int, i - start);
                    }
                }
            }
        }
        index = index + 1;
    }
    indices
}

/// The head of the fill list of one alpha tile; `!0` for none.
#[derive(Clone, Copy, PartialEq, Eq, Debug)]
pub struct TileLinks {
    pub next_fill: u32,
    pub next_alpha_tile: u32,
}

/// The last of the first `n` fills that is for tile `t`, or `!0`.
pub open spec fn last_fill_for(tiles: Seq<u32>, t: u32, n: int) -> u32
    decreases n,
{
    if n <= 0 {
        0xffff_ffff
    } else if tiles[n - 1] == t {
        (n - 1) as u32
    } else {
        last_fill_for(tiles, t, n - 1)
    }
}

/// The alpha tile of each fill.
pub open spec fn fill_tiles(fills: Seq<crate::gpu_data::Fill>) -> Seq<u32> {
    fills.map_values(|f: crate::gpu_data::Fill| f.alpha_tile_index)
}

/// Links the fills of each alpha tile into a list for the compute rasterizer: each
/// fill's tile field is replaced by the index of the previous fill of the same tile
/// (or `!0`), and the returned map gives, per tile, its last fill (or `!0`). Also
/// returns the smallest and greatest tile that has fills.
pub fn link_fills(fills: &mut Vec<crate::gpu_data::Fill>) -> (r: (Vec<TileLinks>, u32, u32))
    requires
        old(fills)@.len() < 0xffff_ffff,
        forall|i: int| 0 <= i < old(fills)@.len() ==> (#[trigger] old(fills)@[i]).alpha_tile_index < 0xffff_ffff,
    ensures
        final(fills)@.len() == old(fills)@.len(),
        forall|i: int| 0 <= i < final(fills)@.len() ==> (#[trigger] final(fills)@[i]).alpha_tile_index
            == last_fill_for(fill_tiles(old(fills)@), old(fills)@[i].alpha_tile_index, i)
            && final(fills)@[i].line_segment == old(fills)@[i].line_segment,
        forall|i: int| 0 <= i < old(fills)@.len() ==> old(fills)@[i].alpha_tile_index < r.0@.len(),
        forall|t: int| 0 <= t < r.0@.len() ==> (#[trigger] r.0@[t]).next_fill == last_fill_for(
            fill_tiles(old(fills)@),
            t as u32,
            old(fills)@.len() as int,
        ) && r.0@[t].next_alpha_tile == 0xffff_ffff,
        forall|i: int| 0 <= i < old(fills)@.len() ==> r.1 <= (#[trigger] old(fills)@[i]).alpha_tile_index <= r.2,
        old(fills)@.len() > 0 ==> exists|i: int| 0 <= i < old(fills)@.len() && (#[trigger] old(fills)@[i]).alpha_tile_index == r.1,
        old(fills)@.len() > 0 ==> exists|i: int| 0 <= i < old(fills)@.len() && (#[trigger] old(fills)@[i]).alpha_tile_index == r.2,
{
    let ghost orig = old(fills)@;
    let ghost tiles = fill_tiles(orig);
    let mut map: Vec<TileLinks> = Vec::new();
    let mut first_fill_tile: u32 = 0xffff_ffff;
    let mut last_fill_tile: u32 = 0;
    let n = fills.len();
    let mut i: usize = 0;
    while i < n
        invariant
            n == orig.len(),
            fills@.len() == n,
            tiles == fill_tiles(orig),
            n < 0xffff_ffff,
            i <= n,
            forall|k: int| 0 <= k < n ==> (#[trigger] orig[k]).alpha_tile_index < 0xffff_ffff,
            forall|k: int| i <= k < n ==> #[trigger] fills@[k] == orig[k],
            forall|k: int| 0 <= k < i ==> (#[trigger] fills@[k]).alpha_tile_index == last_fill_for(tiles, orig[k].alpha_tile_index, k)
                && fills@[k].line_segment == orig[k].line_segment,
            forall|k: int| 0 <= k < i ==> (#[trigger] orig[k]).alpha_tile_index < map@.len(),
            map@.len() <= 0xffff_ffff,
            forall|t: int| 0 <= t < map@.len() ==> (#[trigger] map@[t]).next_fill == last_fill_for(tiles, t as u32, i as int)
                && map@[t].next_alpha_tile == 0xffff_ffff,
            forall|k: int| 0 <= k < i ==> first_fill_tile <= (#[trigger] orig[k]).alpha_tile_index <= last_fill_tile,
            i > 0 ==> exists|k: int| 0 <= k < i && (#[trigger] orig[k]).alpha_tile_index == first_fill_tile,
            i > 0 ==> exists|k: int| 0 <= k < i && (#[trigger] orig[k]).alpha_tile_index == last_fill_tile,
            i == 0 ==> first_fill_tile == 0xffff_ffff && last_fill_tile == 0,
        decreases n - i,
    {
        let fill = fills[i];
        let tile = fill.alpha_tile_index as usize;
        proof {
            assert(tiles[i as int] == orig[i as int].alpha_tile_index);
        }
        while map.len() <= tile
            invariant
                map@.len() <= 0xffff_ffff,
                tile < 0xffff_ffff,
                i < n,
                n == orig.len(),
                tiles == fill_tiles(orig),
                forall|k: int| 0 <= k < n ==> (#[trigger] orig[k]).alpha_tile_index < 0xffff_ffff,
                forall|t: int| 0 <= t < map@.len() ==> (#[trigger] map@[t]).next_fill == last_fill_for(tiles, t as u32, i as int)
                    && map@[t].next_alpha_tile == 0xffff_ffff,
                forall|k: int| 0 <= k < i ==> (#[trigger] orig[k]).alpha_tile_index < map@.len(),
            decreases tile + 1 - map@.len(),
        {
            proof {
                lemma_no_fill_for(tiles, map@.len() as u32, i as int, orig);
            }
            map.push(TileLinks { next_alpha_tile: 0xffff_ffff, next_fill: 0xffff_ffff });
        }
        let previous = map[tile].next_fill;
        fills.set(i, crate::gpu_data::Fill { alpha_tile_index: previous, ..fill });
        map.set(tile, TileLinks { next_fill: i as u32, ..map[tile] });
        if (tile as u32) < first_fill_tile {
            first_fill_tile = tile as u32;
        }
        if (tile as u32) > last_fill_tile {
            last_fill_tile = tile as u32;
        }
        proof {
            assert forall|t: int| 0 <= t < map@.len() implies (#[trigger] map@[t]).next_fill == last_fill_for(tiles, t as u32, i + 1)
                && map@[t].next_alpha_tile == 0xffff_ffff by {
                assert(tiles[i as int] == fill.alpha_tile_index);
            }
            assert(orig[i as int].alpha_tile_index == first_fill_tile || exists|k: int| 0 <= k < i && (#[trigger] orig[k]).alpha_tile_index == first_fill_tile);
        }
        i = i + 1;
    }
    (map, first_fill_tile, last_fill_tile)
}

/// A tile beyond every processed fill has no fill yet.
proof fn lemma_no_fill_for(tiles: Seq<u32>, t: u32, n: int, orig: Seq<crate::gpu_data::Fill>)
    requires
        0 <= n <= tiles.len(),
        tiles.len() == orig.len(),
        forall|k: int| 0 <= k < tiles.len() ==> tiles[k] == (#[trigger] orig[k]).alpha_tile_index,
        forall|k: int| 0 <= k < n ==> (#[trigger] orig[k]).alpha_tile_index < t,
    ensures
        last_fill_for(tiles, t, n) == 0xffff_ffff,
    decreases n,
{
    if n > 0 {
        assert(tiles[n - 1] == orig[n - 1].alpha_tile_index);
        lemma_no_fill_for(tiles, t, n - 1, orig);
    }
}

/// Width of the alpha mask atlas in pixels: 256 tiles of 16 pixels.
pub const MASK_FRAMEBUFFER_WIDTH: i32 = 4096;

/// Height of one page of the alpha mask atlas in pixels.
pub const MASK_FRAMEBUFFER_HEIGHT: i32 = 1024;

/// The number of 65536-tile pages of the alpha atlas that alpha tiles up to index
/// `max_alpha_tile_index` (exclusive) occupy.
pub fn alpha_tile_pages_needed(max_alpha_tile_index: u32) -> (r: u32)
    ensures
        r as int == (max_alpha_tile_index as int + 0xffff) / 0x10000,
{
    ((max_alpha_tile_index as u64 + 0xffff) / 0x10000) as u32
}

/// A new alpha atlas: its page count, its size in pixels, and whether the old
/// atlas's content is copied into it.
#[derive(Clone, Copy, PartialEq, Eq, Debug)]
pub struct AlphaAtlasGrowth {
    pub page_count: u32,
    pub size: Vector2I,
    pub copy_existing: bool,
}

/// Decides whether the alpha atlas must grow: only where more pages are needed than
/// are allocated, to exactly the pages needed, copying the old content where asked
/// and where there is an old atlas.
pub fn reallocate_alpha_tile_pages_if_necessary(
    allocated_page_count: u32,
    pages_needed: u32,
    copy_existing: bool,
    has_atlas: bool,
) -> (r: Option<AlphaAtlasGrowth>)
    requires
        pages_needed <= 0x1_0000,
    ensures
        r.is_some() == (pages_needed > allocated_page_count),
        r.is_some() ==> r.unwrap() == (AlphaAtlasGrowth {
            page_count: pages_needed,
            size: Vector2I { x: MASK_FRAMEBUFFER_WIDTH, y: (MASK_FRAMEBUFFER_HEIGHT * pages_needed) as i32 },
            copy_existing: copy_existing && has_atlas,
        }),
{
    if pages_needed <= allocated_page_count {
        return None;
    }
    let height = MASK_FRAMEBUFFER_HEIGHT * pages_needed as i32;
    Some(AlphaAtlasGrowth {
        page_count: pages_needed,
        size: Vector2I { x: MASK_FRAMEBUFFER_WIDTH, y: height },
        copy_existing: copy_existing && has_atlas,
    })
}

/// Where the prepared tiles of a batch live for the rest of the frame.
#[derive(Clone, Copy, PartialEq, Eq, Debug)]
pub struct TileBatchInfo {
    pub tile_count: u32,
    pub tile_vertex_storage_id: StorageID,
    /// Only present where tiles are prepared on the GPU.
    pub propagate_metadata_storage_id: Option<StorageID>,
}

/// The batch information that a batch map records, by batch identifier.
pub uninterp spec fn batch_entries(m: VecMap<TileBatchInfo>) -> Map<nat, TileBatchInfo>;

/// Relies on `vec_map::VecMap::new`: a new map holds no entry.
#[verifier::external_body]
fn batch_map_new() -> (r: VecMap<TileBatchInfo>)
    ensures
        batch_entries(r) == no_batches(),
{
    VecMap::new()
}

/// Relies on `vec_map::VecMap::insert`: afterwards `key` maps to `value` and every
/// other key is unchanged. Its `key - len + 1` would overflow for `usize::MAX`.
#[verifier::external_body]
fn batch_map_insert(m: &mut VecMap<TileBatchInfo>, key: usize, value: TileBatchInfo)
    requires
        key < usize::MAX,
    ensures
        batch_entries(*final(m)) == batch_entries(*old(m)).insert(key as nat, value),
{
    m.insert(key, value);
}

/// Relies on `vec_map::VecMap::get`: the value recorded for `key`, if any.
#[verifier::external_body]
fn batch_map_get(m: &VecMap<TileBatchInfo>, key: usize) -> (r: Option<TileBatchInfo>)
    ensures
        r.is_some() == batch_entries(*m).contains_key(key as nat),
        r.is_some() ==> r.unwrap() == batch_entries(*m)[key as nat],
{
    m.get(key).copied()
}

/// Relies on `vec_map::VecMap::clear`: afterwards the map holds no entry.
#[verifier::external_body]
fn batch_map_clear(m: &mut VecMap<TileBatchInfo>)
    ensures
        batch_entries(*final(m)) == no_batches(),
{
    m.clear()
}

/// A batch map with no entry.
pub open spec fn no_batches() -> Map<nat, TileBatchInfo> {
    Map::empty()
}

/// The batches prepared in the current frame, which later commands draw or clip
/// against.
pub struct FrameBatches {
    pub tile_batch_info: VecMap<TileBatchInfo>,
}

impl FrameBatches {
    /// The prepared batches, by identifier.
    pub open spec fn prepared(&self) -> Map<nat, TileBatchInfo> {
        batch_entries(self.tile_batch_info)
    }

    /// No batch prepared yet.
    pub fn new() -> (r: FrameBatches)
        ensures
            r.prepared() == no_batches(),
    {
        FrameBatches { tile_batch_info: batch_map_new() }
    }

    /// Records that batch `batch_id` has been prepared, with where its tiles live.
    pub fn record_prepared(&mut self, batch_id: u32, info: TileBatchInfo)
        requires
            (batch_id as int) < usize::MAX,
        ensures
            final(self).prepared() == old(self).prepared().insert(batch_id as nat, info),
    {
        batch_map_insert(&mut self.tile_batch_info, batch_id as usize, info);
    }

    /// The information of a prepared batch; `None` for a batch not prepared in this
    /// frame, which a well-formed command stream never asks for.
    pub fn prepared_batch(&self, batch_id: u32) -> (r: Option<TileBatchInfo>)
        ensures
            r.is_some() == self.prepared().contains_key(batch_id as nat),
            r.is_some() ==> r.unwrap() == self.prepared()[batch_id as nat],
    {
        batch_map_get(&self.tile_batch_info, batch_id as usize)
    }

    /// Forgets every batch at the end of the frame.
    pub fn end_frame(&mut self)
        ensures
            final(self).prepared() == no_batches(),
    {
        batch_map_clear(&mut self.tile_batch_info);
    }
}

} // verus!
