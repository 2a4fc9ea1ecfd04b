//! Software occlusion culling: per tile, the depth of the last opaque path that
//! covers it entirely.

use vstd::prelude::*;
use vec_map::VecMap;
use crate::builder::Occluder;
use crate::tile_map::DenseTileMap;
use crate::tile_map::FixedRect;
use crate::tile_map::round_rect_out_to_tile_bounds;
use crate::tile_map::tile_bounds_of;
use crate::tile_map::lemma_coords_of_index;
use crate::tile_map::Vector2I;

verus! {

#[verifier::external_type_specification]
#[verifier::external_body]
#[verifier::reject_recursive_types(V)]
pub struct ExVecMap<V>(VecMap<V>);

/// Identifies a paint.
#[derive(Clone, Copy, PartialEq, Eq, Debug)]
pub struct PaintId(pub u16);

/// What is known of the path drawn at one depth.
#[derive(Clone, Copy, PartialEq, Eq, Debug)]
pub struct DepthMetadata {
    pub paint_id: PaintId,
}

/// The paint of each depth that a depth map records.
pub uninterp spec fn depth_entries(m: VecMap<DepthMetadata>) -> Map<nat, u16>;

/// A depth map with no entry.
pub open spec fn no_depths() -> Map<nat, u16> {
    Map::empty()
}

/// Relies on `vec_map::VecMap::new`: a new map holds no entry.
#[verifier::external_body]
fn depth_map_new() -> (r: VecMap<DepthMetadata>)
    ensures
        depth_entries(r) == no_depths(),
{
    VecMap::new()
}

/// Relies on `vec_map::VecMap::insert`: afterwards `key` maps to `value` and every
/// other key is unchanged. Its `key - len + 1` would overflow for `usize::MAX`.
#[verifier::external_body]
fn depth_map_insert(m: &mut VecMap<DepthMetadata>, key: usize, value: DepthMetadata)
    requires
        key < usize::MAX,
    ensures
        depth_entries(*final(m)) == depth_entries(*old(m)).insert(key as nat, value.paint_id.0),
{
    m.insert(key, value);
}

/// Some of `occluders` lies at `(x, y)`.
pub open spec fn occluder_at(occluders: Seq<Occluder>, x: int, y: int) -> bool {
    exists|k: int| 0 <= k < occluders.len() && (#[trigger] occluders[k]).coords.x == x
        && occluders[k].coords.y == y
}

/// Some of the first `n` of `occluders` lies at `(x, y)`.
pub open spec fn occluder_among(occluders: Seq<Occluder>, n: int, x: int, y: int) -> bool {
    exists|k: int| 0 <= k < n && (#[trigger] occluders[k]).coords.x == x
        && occluders[k].coords.y == y
}

/// The depths of the view box's tiles, with the paint of each recorded depth.
pub struct ZBuffer {
    pub buffer: DenseTileMap<u32>,
    pub depth_metadata: VecMap<DepthMetadata>,
}

impl ZBuffer {
    pub open spec fn wf(&self) -> bool {
        self.buffer.wf()
    }

    /// A Z-buffer over the tiles of `view_box`, every depth zero.
    pub fn new(view_box: FixedRect) -> (r: ZBuffer)
        requires
            view_box.wf(),
        ensures
            r.wf(),
            r.buffer.rect == tile_bounds_of(view_box),
            forall|i: int| 0 <= i < r.buffer.data@.len() ==> #[trigger] r.buffer.data@[i] == 0,
            depth_entries(r.depth_metadata) == no_depths(),
    {
        let tile_rect = round_rect_out_to_tile_bounds(view_box);
        ZBuffer { buffer: DenseTileMap::filled(0u32, tile_rect), depth_metadata: depth_map_new() }
    }

    /// Whether a path at `depth` is visible at tile `coords`: no occluder at a strictly
    /// greater depth covers the tile.
    pub fn test(&self, coords: Vector2I, depth: u32) -> (r: bool)
        requires
            self.wf(),
            self.buffer.rect.contains(coords.x as int, coords.y as int),
        ensures
            r == !(self.buffer.data@[self.buffer.rect.index_of(coords.x as int, coords.y as int)] > depth),
    {
        let tile_index = self.buffer.coords_to_index(coords.x, coords.y).unwrap();
        !(self.buffer.data[tile_index] > depth)
    }

    /// Records the tiles of `solid_tiles` as covered at `depth`, and the depth's metadata.
    pub fn update(&mut self, solid_tiles: &[Occluder], depth: u32, metadata: DepthMetadata)
        requires
            old(self).wf(),
            (depth as int) < usize::MAX,
            forall|k: int| 0 <= k < solid_tiles@.len() ==> old(self).buffer.rect.contains(
                (#[trigger] solid_tiles@[k]).coords.x as int,
                solid_tiles@[k].coords.y as int,
            ),
        ensures
            final(self).wf(),
            final(self).buffer.rect == old(self).buffer.rect,
            final(self).buffer.data@.len() == old(self).buffer.data@.len(),
            forall|j: int| 0 <= j < final(self).buffer.data@.len() ==> #[trigger] final(self).buffer.data@[j]
                == if occluder_at(solid_tiles@, old(self).buffer.rect.x_of(j), old(self).buffer.rect.y_of(j))
                    && old(self).buffer.data@[j] < depth {
                    depth
                } else {
                    old(self).buffer.data@[j]
                },
            depth_entries(final(self).depth_metadata) == depth_entries(old(self).depth_metadata).insert(
                depth as nat,
                metadata.paint_id.0,
            ),
    {
        depth_map_insert(&mut self.depth_metadata, depth as usize, metadata);
        let ghost rect = self.buffer.rect;
        let ghost start = self.buffer.data@;
        let ghost entries = depth_entries(self.depth_metadata);
        let n = solid_tiles.len();
        let mut k: usize = 0;
        while k < n
            invariant
                n == solid_tiles@.len(),
                k <= n,
                self.buffer.wf(),
                self.buffer.rect == rect,
                depth_entries(self.depth_metadata) == entries,
                self.buffer.data@.len() == start.len(),
                forall|m: int| 0 <= m < solid_tiles@.len() ==> rect.contains(
                    (#[trigger] solid_tiles@[m]).coords.x as int,
                    solid_tiles@[m].coords.y as int,
                ),
                forall|j: int| 0 <= j < self.buffer.data@.len() ==> #[trigger] self.buffer.data@[j]
                    == if occluder_among(solid_tiles@, k as int, rect.x_of(j), rect.y_of(j))
                        && start[j] < depth {
                        depth
                    } else {
                        start[j]
                    },
            decreases n - k,
        {
            let solid_tile = solid_tiles[k];
            let tile_index = self.buffer.coords_to_index(solid_tile.coords.x, solid_tile.coords.y).unwrap();
            let z = self.buffer.data[tile_index];
            if depth > z {
                self.buffer.data.set(tile_index, depth);
            }
            proof {
                assert forall|j: int| 0 <= j < self.buffer.data@.len() implies #[trigger] self.buffer.data@[j]
                    == if occluder_among(solid_tiles@, k + 1, rect.x_of(j), rect.y_of(j)) && start[j] < depth {
                        depth
                    } else {
                        start[j]
                    } by {
                    lemma_coords_of_index(j, rect.width as int, rect.height as int);
                    if occluder_among(solid_tiles@, k as int, rect.x_of(j), rect.y_of(j)) {
                        let w = choose|m: int| 0 <= m < k && (#[trigger] solid_tiles@[m]).coords.x == rect.x_of(j)
                            && solid_tiles@[m].coords.y == rect.y_of(j);
                        assert(0 <= w < k + 1);
                    }
                    if j == tile_index as int {
                        vstd::arithmetic::div_mod::lemma_fundamental_div_mod_converse(
                            j, rect.width as int, solid_tile.coords.y - rect.origin_y, solid_tile.coords.x - rect.origin_x);
                        assert(solid_tiles@[k as int].coords.x == rect.x_of(j));
                    } else {
                        if occluder_among(solid_tiles@, k + 1, rect.x_of(j), rect.y_of(j)) {
                            let w = choose|m: int| 0 <= m < k + 1 && (#[trigger] solid_tiles@[m]).coords.x == rect.x_of(j)
                                && solid_tiles@[m].coords.y == rect.y_of(j);
                            if w == k {
                                assert(rect.index_of(rect.x_of(j), rect.y_of(j)) == j);
                            }
                        }
                    }
                }
            }
            k = k + 1;
        }
    }
}

} // verus!
