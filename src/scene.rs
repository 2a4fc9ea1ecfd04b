//! The scene as the tiling stage reads it, and the builder's scene-wide decisions.

use vstd::prelude::*;
use crate::blend::BlendMode;
use crate::blend::BlendModeExt;
use crate::blend::reads_destination;
use crate::builder::FillRule;
use crate::gpu_data::AlphaTileCounters;
use crate::tile_map::FixedRect;
use crate::tile_map::Vector2I;
use crate::z_buffer::PaintId;
use crate::builder::BuiltDrawPath;
use crate::builder::BuiltPath;
use crate::builder::RendererGPUFeatures;
use crate::gpu_data::DrawTileBatch;
use crate::gpu_data::PathIndex;
use crate::gpu_data::PrepareTilesBatch;
use crate::gpu_data::PrepareTilesModalInfo;
use crate::gpu_data::RenderCommand;
use crate::gpu_data::TileBatchId;
use crate::gpu_data::TileBatchTexture;
use crate::gpu_data::TileObjectPrimitive;
use crate::tile_map::TileRect;
use crate::tile_map::round_rect_out_to_tile_bounds;
use crate::tile_map::tile_bounds_of;
use crate::builder::DrawTilingPathInfo;
use crate::builder::TilingPathInfo;
use crate::builder::ObjectBuilder;
use crate::tiler::tile_path;
use crate::tiler::outline_wf;

verus! {

/// Identifies a render target of a scene.
#[derive(Clone, Copy, PartialEq, Eq, Debug)]
pub struct RenderTargetId {
    pub scene: u32,
    pub render_target: u32,
}

/// One entry of a scene's display list.
#[derive(Clone, Copy, PartialEq, Eq, Debug)]
pub enum DisplayItem {
    /// Draws the paths with indices `start_index..end_index`.
    DrawPaths { start_index: u32, end_index: u32 },
    /// Redirects drawing to a render target.
    PushRenderTarget(RenderTargetId),
    /// Returns to the previous render target.
    PopRenderTarget,
}

/// A closed polygon in fixed-point scene coordinates.
pub struct Contour {
    pub points: Vec<Vector2I>,
}

/// A path to draw.
pub struct DrawPath {
    pub outline: Vec<Contour>,
    pub fill_rule: FillRule,
    pub paint: PaintId,
    /// Whether the paint is fully opaque.
    pub paint_is_opaque: bool,
    /// The paint's filter and color texture, which batching compares.
    pub filter: crate::gpu_data::Filter,
    pub color_texture: Option<TileBatchTexture>,
    pub blend_mode: BlendMode,
    /// Index of the clip path applied, if any.
    pub clip_path: Option<u32>,
}

/// A path used only to clip others.
pub struct ClipPath {
    pub outline: Vec<Contour>,
    pub fill_rule: FillRule,
}

/// The paths of a scene and the order in which they are drawn.
pub struct Scene {
    pub paths: Vec<DrawPath>,
    pub clip_paths: Vec<ClipPath>,
    pub display_list: Vec<DisplayItem>,
    pub view_box: FixedRect,
}

/// Change of render-target nesting that a display item makes.
pub open spec fn nesting_delta(item: DisplayItem) -> int {
    match item {
        DisplayItem::PushRenderTarget(_) => 1,
        DisplayItem::PopRenderTarget => -1,
        DisplayItem::DrawPaths { .. } => 0,
    }
}

/// Render-target nesting before item `k` of `items`.
pub open spec fn nesting_before(items: Seq<DisplayItem>, k: int) -> int
    decreases k,
{
    if k <= 0 { 0 } else { nesting_before(items, k - 1) + nesting_delta(items[k - 1]) }
}

/// Item `k` draws, at the top level, a path whose blend mode reads the destination.
pub open spec fn item_reads_framebuffer(items: Seq<DisplayItem>, modes: Seq<BlendMode>, k: int) -> bool {
    match items[k] {
        DisplayItem::DrawPaths { start_index, end_index } => nesting_before(items, k) <= 0
            && exists|p: int| start_index <= p < end_index && reads_destination(#[trigger] modes[p]),
        _ => false,
    }
}

impl Scene {
    /// The blend mode of each path.
    pub open spec fn blend_modes(&self) -> Seq<BlendMode> {
        self.paths@.map_values(|p: DrawPath| p.blend_mode)
    }

    /// Every drawn range names existing paths, and nesting stays countable.
    pub open spec fn wf(&self) -> bool {
        &&& self.display_list@.len() < i32::MAX
        &&& forall|k: int| 0 <= k < self.display_list@.len() ==> match #[trigger] self.display_list@[k] {
            DisplayItem::DrawPaths { start_index, end_index } => end_index <= self.paths@.len(),
            _ => true,
        }
    }

    /// Whether some path drawn outside every render target reads the destination.
    pub open spec fn needs_readable_framebuffer_spec(&self) -> bool {
        exists|k: int| 0 <= k < self.display_list@.len() && item_reads_framebuffer(
            self.display_list@,
            self.blend_modes(),
            k,
        )
    }
}

/// Builds the GPU commands of a scene.
pub struct SceneBuilder {
    pub scene: Scene,
    /// The counters from which the scene's alpha tiles are allocated.
    pub next_alpha_tile_indices: AlphaTileCounters,
}

proof fn lemma_nesting_bounds(items: Seq<DisplayItem>, k: int)
    requires
        0 <= k,
    ensures
        -k <= nesting_before(items, k) <= k,
    decreases k,
{
    if k > 0 {
        lemma_nesting_bounds(items, k - 1);
    }
}

impl SceneBuilder {
    /// A builder for `scene` whose alpha tile counters start at zero.
    pub fn new(scene: Scene) -> (r: SceneBuilder)
        ensures
            r.scene == scene,
            r.next_alpha_tile_indices.wf(),
            r.next_alpha_tile_indices.next[0] == 0,
            r.next_alpha_tile_indices.next[1] == 0,
    {
        SceneBuilder { scene, next_alpha_tile_indices: AlphaTileCounters::new() }
    }

    /// Whether the destination framebuffer must be readable: some path drawn outside
    /// every render target uses a blend mode that reads the destination.
    pub fn needs_readable_framebuffer(&self) -> (r: bool)
        requires
            self.scene.wf(),
        ensures
            r == self.scene.needs_readable_framebuffer_spec(),
    {
        let items = &self.scene.display_list;
        let ghost modes = self.scene.blend_modes();
        let mut framebuffer_nesting: i32 = 0;
        let mut i: usize = 0;
        while i < items.len()
            invariant
                self.scene.wf(),
                items == &self.scene.display_list,
                modes == self.scene.blend_modes(),
                i <= items@.len(),
                framebuffer_nesting as int == nesting_before(items@, i as int),
                forall|k: int| 0 <= k < i ==> !item_reads_framebuffer(items@, modes, k),
            decreases items@.len() - i,
        {
            proof {
                lemma_nesting_bounds(items@, i as int);
            }
            match items[i] {
                DisplayItem::PushRenderTarget(_) => {
                    framebuffer_nesting = framebuffer_nesting + 1;
                },
                DisplayItem::PopRenderTarget => {
                    framebuffer_nesting = framebuffer_nesting - 1;
                },
                DisplayItem::DrawPaths { start_index, end_index } => {
                    if framebuffer_nesting <= 0 {
                        let mut p: u32 = start_index;
                        while p < end_index
                            invariant
                                self.scene.wf(),
                                modes == self.scene.blend_modes(),
                                items == &self.scene.display_list,
                                i < items@.len(),
                                framebuffer_nesting as int == nesting_before(items@, i as int),
                                framebuffer_nesting <= 0,
                                forall|k: int| 0 <= k < i ==> !item_reads_framebuffer(items@, modes, k),
                                items@[i as int] == (DisplayItem::DrawPaths { start_index, end_index }),
                                start_index <= p,
                                p <= end_index || p == start_index,
                                end_index <= self.scene.paths@.len(),
                                forall|q: int| start_index <= q < p ==> !reads_destination(#[trigger] modes[q]),
                            decreases end_index - p,
                        {
                            let blend_mode = self.scene.paths[p as usize].blend_mode;
                            if blend_mode.needs_readable_framebuffer() {
                                proof {
                                    assert(modes[p as int] == blend_mode);
                                    assert(item_reads_framebuffer(items@, modes, i as int));
                                }
                                return true;
                            }
                            p = p + 1;
                        }
                        proof {
                            assert forall|q: int| start_index <= q < end_index implies !reads_destination(#[trigger] modes[q]) by {}
                        }
                    }
                },
            }
            i = i + 1;
        }
        false
    }
}

/// Whether command `c` draws batch `id`.
pub open spec fn draws_batch(c: RenderCommand, id: u32) -> bool {
    match c {
        RenderCommand::DrawTiles(d) => d.tile_batch_id.0 == id,
        _ => false,
    }
}

/// Whether command `c` prepares batch `id`.
pub open spec fn prepares_batch(c: RenderCommand, id: u32) -> bool {
    match c {
        RenderCommand::PrepareTiles(p) => p.batch_id.0 == id,
        _ => false,
    }
}

/// The render-target changes among `cmds`, in order: `Some` for a push, `None` for a pop.
pub open spec fn target_changes(cmds: Seq<RenderCommand>) -> Seq<Option<RenderTargetId>>
    decreases cmds.len(),
{
    if cmds.len() == 0 {
        Seq::empty()
    } else {
        let rest = target_changes(cmds.drop_last());
        match cmds.last() {
            RenderCommand::PushRenderTarget(id) => rest.push(Some(id)),
            RenderCommand::PopRenderTarget => rest.push(None),
            _ => rest,
        }
    }
}

/// The render-target changes of a display list, in order.
pub open spec fn item_target_changes(items: Seq<DisplayItem>) -> Seq<Option<RenderTargetId>>
    decreases items.len(),
{
    if items.len() == 0 {
        Seq::empty()
    } else {
        let rest = item_target_changes(items.drop_last());
        match items.last() {
            DisplayItem::PushRenderTarget(id) => rest.push(Some(id)),
            DisplayItem::PopRenderTarget => rest.push(None),
            _ => rest,
        }
    }
}

/// Whether `c` changes the render target.
pub open spec fn changes_target(c: RenderCommand) -> bool {
    c is PushRenderTarget || c is PopRenderTarget
}

proof fn lemma_target_changes_push(cmds: Seq<RenderCommand>, c: RenderCommand)
    ensures
        target_changes(cmds.push(c)) == match c {
            RenderCommand::PushRenderTarget(id) => target_changes(cmds).push(Some(id)),
            RenderCommand::PopRenderTarget => target_changes(cmds).push(None),
            _ => target_changes(cmds),
        },
{
    assert(cmds.push(c).drop_last() =~= cmds);
}

proof fn lemma_target_changes_concat(a: Seq<RenderCommand>, b: Seq<RenderCommand>)
    ensures
        target_changes(a + b) == target_changes(a) + target_changes(b),
    decreases b.len(),
{
    if b.len() == 0 {
        assert(a + b =~= a);
        assert(target_changes(a) + target_changes(b) =~= target_changes(a));
    } else {
        lemma_target_changes_concat(a, b.drop_last());
        assert((a + b).drop_last() =~= a + b.drop_last());
        assert((a + b).last() == b.last());
        let ta = target_changes(a);
        let tb = target_changes(b.drop_last());
        match b.last() {
            RenderCommand::PushRenderTarget(id) => {
                assert(ta + tb.push(Some(id)) =~= (ta + tb).push(Some(id)));
            },
            RenderCommand::PopRenderTarget => {
                assert(ta + tb.push(None) =~= (ta + tb).push(None));
            },
            _ => {},
        }
    }
}

proof fn lemma_prepare_no_change(cmds: Seq<RenderCommand>, c: RenderCommand)
    requires
        forall|k: int| 0 <= k < cmds.len() ==> !changes_target(#[trigger] cmds[k]),
        c is PrepareTiles,
    ensures
        forall|k: int| 0 <= k < cmds.push(c).len() ==> !changes_target(#[trigger] cmds.push(c)[k]),
{
    assert forall|k: int| 0 <= k < cmds.push(c).len() implies !changes_target(#[trigger] cmds.push(c)[k]) by {
        if k < cmds.len() {
            assert(cmds.push(c)[k] == cmds[k]);
        }
    }
}

proof fn lemma_no_target_changes(cmds: Seq<RenderCommand>)
    requires
        forall|k: int| 0 <= k < cmds.len() ==> !changes_target(#[trigger] cmds[k]),
    ensures
        target_changes(cmds) == Seq::<Option<RenderTargetId>>::empty(),
    decreases cmds.len(),
{
    if cmds.len() > 0 {
        lemma_no_target_changes(cmds.drop_last());
    }
}

/// A draw batch has the batch state of path `d`.
pub open spec fn same_batch_state_draw(b: DrawTileBatch, d: BuiltDrawPath) -> bool {
    b.color_texture == d.color_texture && b.filter == d.filter && b.blend_mode == d.blend_mode
}

/// Two drawn paths can share a batch: same color texture, filter and blend mode.
pub open spec fn same_batch_state(a: BuiltDrawPath, b: BuiltDrawPath) -> bool {
    a.color_texture == b.color_texture && a.filter == b.filter && a.blend_mode == b.blend_mode
}

/// The number of runs of consecutive paths with the same batch state in `s..e`.
pub open spec fn runs(paths: Seq<BuiltDrawPath>, s: int, e: int) -> int
    decreases e - s,
{
    if e <= s {
        0
    } else {
        runs(paths, s, e - 1) + if e - 1 == s || !same_batch_state(paths[e - 2], paths[e - 1]) { 1int } else { 0int }
    }
}

/// Path `q` of the range starting at `s` begins a run of equal batch state.
pub open spec fn starts_run(paths: Seq<BuiltDrawPath>, s: int, q: int) -> bool {
    q == s || !same_batch_state(paths[q - 1], paths[q])
}

/// The draw command of batch `id` for paths in the batch state of `d`.
pub open spec fn draw_of(id: int, d: BuiltDrawPath) -> RenderCommand {
    RenderCommand::DrawTiles(DrawTileBatch {
        tile_batch_id: TileBatchId(id as u32),
        color_texture: d.color_texture,
        filter: d.filter,
        blend_mode: d.blend_mode,
    })
}

/// The draw commands of the runs of paths `s..e`, whose batches are numbered from
/// `base + 1`.
pub open spec fn range_draws(paths: Seq<BuiltDrawPath>, s: int, e: int, base: int) -> Seq<RenderCommand>
    decreases e - s,
{
    if e <= s {
        Seq::empty()
    } else {
        range_draws(paths, s, e - 1, base) + if starts_run(paths, s, e - 1) {
            seq![draw_of(base + runs(paths, s, e), paths[e - 1])]
        } else {
            Seq::empty()
        }
    }
}

/// The draw and render-target commands of the first `i` display items, in order.
pub open spec fn items_draws(items: Seq<DisplayItem>, paths: Seq<BuiltDrawPath>, i: int) -> Seq<RenderCommand>
    decreases i,
{
    if i <= 0 {
        Seq::empty()
    } else {
        items_draws(items, paths, i - 1) + match items[i - 1] {
            DisplayItem::PushRenderTarget(id) => seq![RenderCommand::PushRenderTarget(id)],
            DisplayItem::PopRenderTarget => seq![RenderCommand::PopRenderTarget],
            DisplayItem::DrawPaths { start_index, end_index } => range_draws(
                paths,
                start_index as int,
                end_index as int,
                runs_before(items, paths, i - 1),
            ),
        }
    }
}

/// The tiles, in order, of the paths of `s..e` that go to batch `m`.
pub open spec fn range_tiles(paths: Seq<BuiltDrawPath>, s: int, e: int, base: int, m: int) -> Seq<TileObjectPrimitive>
    decreases e - s,
{
    if e <= s {
        Seq::empty()
    } else {
        range_tiles(paths, s, e - 1, base, m) + if base + runs(paths, s, e) == m {
            paths[e - 1].path.tiles.data@
        } else {
            Seq::empty()
        }
    }
}

/// The tiles, in order, that batch `m` receives from the first `i` display items.
pub open spec fn batch_tiles(items: Seq<DisplayItem>, paths: Seq<BuiltDrawPath>, i: int, m: int) -> Seq<TileObjectPrimitive>
    decreases i,
{
    if i <= 0 {
        Seq::empty()
    } else {
        batch_tiles(items, paths, i - 1, m) + match items[i - 1] {
            DisplayItem::DrawPaths { start_index, end_index } => range_tiles(
                paths,
                start_index as int,
                end_index as int,
                runs_before(items, paths, i - 1),
                m,
            ),
            _ => Seq::empty(),
        }
    }
}

/// The number of tiles that command `c` prepares.
pub open spec fn clip_batch_tile_count(c: RenderCommand) -> int {
    match c {
        RenderCommand::PrepareTiles(b) => b.tiles@.len() as int,
        _ => 0,
    }
}

/// The commands start with the preparation of the clip batch 0.
pub open spec fn clip_sent(cmds: Seq<RenderCommand>) -> bool {
    cmds.len() > 0 && prepares_batch(cmds[0], 0)
}

/// Command `c` prepares batch `m` holding exactly `tiles`.
pub open spec fn prep_holds(c: RenderCommand, m: int, tiles: Seq<TileObjectPrimitive>) -> bool {
    match c {
        RenderCommand::PrepareTiles(b) => b.batch_id.0 == m && b.tiles@ == tiles,
        _ => false,
    }
}

proof fn lemma_runs_monotone(paths: Seq<BuiltDrawPath>, s: int, a: int, b: int)
    requires
        s <= a <= b,
    ensures
        runs(paths, s, a) <= runs(paths, s, b),
        a < b ==> runs(paths, s, b) >= 1,
    decreases b - a,
{
    if a < b {
        lemma_runs_monotone(paths, s, a, b - 1);
        lemma_runs_pos(paths, s, b);
    }
}

proof fn lemma_runs_pos(paths: Seq<BuiltDrawPath>, s: int, e: int)
    requires
        s < e,
    ensures
        runs(paths, s, e) >= 1,
    decreases e - s,
{
    if e - 1 > s {
        lemma_runs_pos(paths, s, e - 1);
    } else {
        assert(runs(paths, s, s) == 0);
    }
}

proof fn lemma_runs_nonneg(paths: Seq<BuiltDrawPath>, s: int, e: int)
    ensures
        runs(paths, s, e) >= 0,
    decreases e - s,
{
    if e > s {
        lemma_runs_nonneg(paths, s, e - 1);
    }
}

proof fn lemma_runs_before_monotone(items: Seq<DisplayItem>, paths: Seq<BuiltDrawPath>, a: int, b: int)
    requires
        0 <= a <= b,
    ensures
        runs_before(items, paths, a) <= runs_before(items, paths, b),
    decreases b - a,
{
    if a < b {
        lemma_runs_before_monotone(items, paths, a, b - 1);
        match items[b - 1] {
            DisplayItem::DrawPaths { start_index, end_index } => {
                lemma_runs_nonneg(paths, start_index as int, end_index as int);
            },
            _ => {},
        }
    }
}

/// No path of `s..e` goes to a batch outside `base + 1 ..= base + runs(s, e)`.
proof fn lemma_range_tiles_outside(paths: Seq<BuiltDrawPath>, s: int, e: int, base: int, m: int)
    requires
        m > base + runs(paths, s, e) || m <= base,
    ensures
        range_tiles(paths, s, e, base, m) == Seq::<TileObjectPrimitive>::empty(),
    decreases e - s,
{
    if e > s {
        lemma_runs_monotone(paths, s, e - 1, e);
        lemma_range_tiles_outside(paths, s, e - 1, base, m);
        assert(range_tiles(paths, s, e - 1, base, m) + Seq::<TileObjectPrimitive>::empty() =~= Seq::<TileObjectPrimitive>::empty());
    }
}

/// Paths from `p` on go to batches after `m`, so they add nothing to it.
proof fn lemma_range_tiles_stable(paths: Seq<BuiltDrawPath>, s: int, p: int, e: int, base: int, m: int)
    requires
        s <= p <= e,
        p < e ==> m < base + runs(paths, s, p + 1),
    ensures
        range_tiles(paths, s, e, base, m) == range_tiles(paths, s, p, base, m),
    decreases e - p,
{
    if p < e {
        lemma_range_tiles_stable(paths, s, p, e - 1, base, m);
        if e - 1 > p {
        }
        lemma_runs_monotone(paths, s, p + 1, e);
        assert(range_tiles(paths, s, e, base, m) =~= range_tiles(paths, s, e - 1, base, m));
    }
}

/// The first `i` items send nothing to a batch numbered after theirs.
proof fn lemma_batch_tiles_low(items: Seq<DisplayItem>, paths: Seq<BuiltDrawPath>, i: int, m: int)
    requires
        m > runs_before(items, paths, i),
        i >= 0,
    ensures
        batch_tiles(items, paths, i, m) == Seq::<TileObjectPrimitive>::empty(),
    decreases i,
{
    if i > 0 {
        lemma_runs_before_monotone(items, paths, i - 1, i);
        lemma_batch_tiles_low(items, paths, i - 1, m);
        match items[i - 1] {
            DisplayItem::DrawPaths { start_index, end_index } => {
                lemma_range_tiles_outside(paths, start_index as int, end_index as int, runs_before(items, paths, i - 1), m);
            },
            _ => {},
        }
        assert(batch_tiles(items, paths, i, m) =~= Seq::<TileObjectPrimitive>::empty());
    }
}

/// Items from `i` on send nothing to a batch numbered up to theirs' start.
proof fn lemma_batch_tiles_stable(items: Seq<DisplayItem>, paths: Seq<BuiltDrawPath>, i: int, n: int, m: int)
    requires
        0 <= i <= n,
        m <= runs_before(items, paths, i),
    ensures
        batch_tiles(items, paths, n, m) == batch_tiles(items, paths, i, m),
    decreases n - i,
{
    if i < n {
        lemma_batch_tiles_stable(items, paths, i, n - 1, m);
        lemma_runs_before_monotone(items, paths, i, n - 1);
        match items[n - 1] {
            DisplayItem::DrawPaths { start_index, end_index } => {
                lemma_range_tiles_outside(paths, start_index as int, end_index as int, runs_before(items, paths, n - 1), m);
            },
            _ => {},
        }
        assert(batch_tiles(items, paths, n, m) =~= batch_tiles(items, paths, n - 1, m));
    }
}

/// Within a run that starts at `rs` and lasts up to `p`, the draws are those before
/// the run and the run's one draw.
proof fn lemma_range_draws_run(paths: Seq<BuiltDrawPath>, s: int, rs: int, p: int, base: int)
    requires
        s <= rs < p,
        starts_run(paths, s, rs),
        forall|q: int| rs < q < p ==> !#[trigger] starts_run(paths, s, q),
    ensures
        range_draws(paths, s, p, base) == range_draws(paths, s, rs, base).push(draw_of(base + runs(paths, s, rs + 1), paths[rs])),
        runs(paths, s, p) == runs(paths, s, rs + 1),
    decreases p - rs,
{
    if p == rs + 1 {
        assert(range_draws(paths, s, p, base) =~= range_draws(paths, s, rs, base).push(draw_of(base + runs(paths, s, rs + 1), paths[rs])));
    } else {
        lemma_range_draws_run(paths, s, rs, p - 1, base);
        assert(!starts_run(paths, s, p - 1));
        assert(range_draws(paths, s, p, base) =~= range_draws(paths, s, p - 1, base));
    }
}

/// The number of draw batches that the first `i` display items need.
pub open spec fn runs_before(items: Seq<DisplayItem>, paths: Seq<BuiltDrawPath>, i: int) -> int
    decreases i,
{
    if i <= 0 {
        0
    } else {
        runs_before(items, paths, i - 1) + match items[i - 1] {
            DisplayItem::DrawPaths { start_index, end_index } => runs(paths, start_index as int, end_index as int),
            _ => 0,
        }
    }
}

/// Whether `c` prepares a draw batch (a batch other than 0).
pub open spec fn is_draw_batch_prep(c: RenderCommand) -> bool {
    match c {
        RenderCommand::PrepareTiles(b) => b.batch_id.0 != 0,
        _ => false,
    }
}

/// The number of draw batches (batches other than 0) that `cmds` prepare.
pub open spec fn count_batches(cmds: Seq<RenderCommand>) -> int
    decreases cmds.len(),
{
    if cmds.len() == 0 {
        0
    } else {
        count_batches(cmds.drop_last()) + match cmds.last() {
            RenderCommand::PrepareTiles(b) => if b.batch_id.0 != 0 { 1int } else { 0int },
            _ => 0,
        }
    }
}

proof fn lemma_count_batches_push(cmds: Seq<RenderCommand>, c: RenderCommand)
    ensures
        count_batches(cmds.push(c)) == count_batches(cmds) + match c {
            RenderCommand::PrepareTiles(b) => if b.batch_id.0 != 0 { 1int } else { 0int },
            _ => 0,
        },
{
    assert(cmds.push(c).drop_last() =~= cmds);
}

proof fn lemma_count_batches_concat(a: Seq<RenderCommand>, b: Seq<RenderCommand>)
    ensures
        count_batches(a + b) == count_batches(a) + count_batches(b),
    decreases b.len(),
{
    if b.len() == 0 {
        assert(a + b =~= a);
    } else {
        lemma_count_batches_concat(a, b.drop_last());
        assert((a + b).drop_last() =~= a + b.drop_last());
        assert((a + b).last() == b.last());
    }
}

/// Preparations of draw batches only: one counted batch each.
proof fn lemma_count_batches_all(cmds: Seq<RenderCommand>)
    requires
        forall|k: int| 0 <= k < cmds.len() ==> is_draw_batch_prep(#[trigger] cmds[k]),
    ensures
        count_batches(cmds) == cmds.len(),
    decreases cmds.len(),
{
    if cmds.len() > 0 {
        lemma_count_batches_all(cmds.drop_last());
    }
}

/// Commands without preparations count no batch.
proof fn lemma_count_batches_none(cmds: Seq<RenderCommand>)
    requires
        forall|k: int| 0 <= k < cmds.len() ==> !(#[trigger] cmds[k] is PrepareTiles),
    ensures
        count_batches(cmds) == 0,
    decreases cmds.len(),
{
    if cmds.len() > 0 {
        lemma_count_batches_none(cmds.drop_last());
    }
}

/// The number of paths that command `c` puts in the clip batch 0.
pub open spec fn clip_batch_paths(c: RenderCommand) -> int {
    match c {
        RenderCommand::PrepareTiles(b) => if b.batch_id.0 == 0 { b.path_count as int } else { 0 },
        _ => 0,
    }
}

/// Some path of `s..e` is clipped by clip path `c`.
pub open spec fn used_in_range(paths: Seq<BuiltDrawPath>, s: int, e: int, c: int) -> bool
    decreases e - s,
{
    if e <= s {
        false
    } else {
        used_in_range(paths, s, e - 1, c) || paths[e - 1].clip_path_id == Some(PathIndex(c as u32))
    }
}

/// Some path drawn by the first `i` display items is clipped by clip path `c`.
pub open spec fn used_before(items: Seq<DisplayItem>, paths: Seq<BuiltDrawPath>, i: int, c: int) -> bool
    decreases i,
{
    if i <= 0 {
        false
    } else {
        used_before(items, paths, i - 1, c) || match items[i - 1] {
            DisplayItem::DrawPaths { start_index, end_index } => used_in_range(paths, start_index as int, end_index as int, c),
            _ => false,
        }
    }
}

/// The number of clip paths among the first `n` that the display list uses.
pub open spec fn used_clip_count(items: Seq<DisplayItem>, paths: Seq<BuiltDrawPath>, n: int) -> int
    decreases n,
{
    if n <= 0 {
        0
    } else {
        used_clip_count(items, paths, n - 1) + if used_before(items, paths, items.len() as int, n - 1) { 1int } else { 0int }
    }
}

/// The number of tiles of the clip paths among the first `n` that the display list uses.
pub open spec fn used_clip_tiles(items: Seq<DisplayItem>, paths: Seq<BuiltDrawPath>, clips: Seq<BuiltPath>, n: int) -> int
    decreases n,
{
    if n <= 0 {
        0
    } else {
        used_clip_tiles(items, paths, clips, n - 1) + if used_before(items, paths, items.len() as int, n - 1) {
            clips[n - 1].tiles.data@.len() as int
        } else {
            0int
        }
    }
}

/// The number of tiles of the clip paths already pushed into the clip batch.
pub open spec fn tiles_pushed(index: Seq<Option<PathIndex>>, clips: Seq<BuiltPath>) -> int
    decreases index.len(),
{
    if index.len() == 0 {
        0
    } else {
        tiles_pushed(index.drop_last(), clips) + if index.last().is_some() {
            clips[index.len() - 1].tiles.data@.len() as int
        } else {
            0int
        }
    }
}

proof fn lemma_tiles_pushed_set(index: Seq<Option<PathIndex>>, clips: Seq<BuiltPath>, i: int, v: PathIndex)
    requires
        0 <= i < index.len(),
        index[i].is_none(),
    ensures
        tiles_pushed(index.update(i, Some(v)), clips) == tiles_pushed(index, clips) + clips[i].tiles.data@.len(),
    decreases index.len(),
{
    let u = index.update(i, Some(v));
    if i == index.len() - 1 {
        assert(u.drop_last() =~= index.drop_last());
    } else {
        assert(u.drop_last() =~= index.drop_last().update(i, Some(v)));
        lemma_tiles_pushed_set(index.drop_last(), clips, i, v);
    }
}

proof fn lemma_tiles_pushed_none(index: Seq<Option<PathIndex>>, clips: Seq<BuiltPath>)
    requires
        forall|k: int| 0 <= k < index.len() ==> index[k].is_none(),
    ensures
        tiles_pushed(index, clips) == 0,
    decreases index.len(),
{
    if index.len() > 0 {
        lemma_tiles_pushed_none(index.drop_last(), clips);
    }
}

/// Where the pushed clip paths are exactly the used ones, the counts agree.
proof fn lemma_pushed_match(items: Seq<DisplayItem>, paths: Seq<BuiltDrawPath>, clips: Seq<BuiltPath>, index: Seq<Option<PathIndex>>)
    requires
        forall|c: int| 0 <= c < index.len() ==> index[c].is_some() == used_before(items, paths, items.len() as int, c),
    ensures
        count_pushed(index) == used_clip_count(items, paths, index.len() as int),
        tiles_pushed(index, clips) == used_clip_tiles(items, paths, clips, index.len() as int),
    decreases index.len(),
{
    if index.len() > 0 {
        let d = index.drop_last();
        assert forall|c: int| 0 <= c < d.len() implies d[c].is_some() == used_before(items, paths, items.len() as int, c) by {
            assert(d[c] == index[c]);
        }
        lemma_pushed_match(items, paths, clips, d);
    }
}

proof fn lemma_used_clip_tiles_nonneg(items: Seq<DisplayItem>, paths: Seq<BuiltDrawPath>, clips: Seq<BuiltPath>, n: int)
    ensures
        used_clip_tiles(items, paths, clips, n) >= 0,
    decreases n,
{
    if n > 0 {
        lemma_used_clip_tiles_nonneg(items, paths, clips, n - 1);
    }
}

/// The number of clip paths already pushed into the clip batch.
pub open spec fn count_pushed(index: Seq<Option<PathIndex>>) -> int
    decreases index.len(),
{
    if index.len() == 0 {
        0
    } else {
        count_pushed(index.drop_last()) + if index.last().is_some() { 1int } else { 0int }
    }
}

proof fn lemma_count_pushed_bounds(index: Seq<Option<PathIndex>>)
    ensures
        0 <= count_pushed(index) <= index.len(),
    decreases index.len(),
{
    if index.len() > 0 {
        lemma_count_pushed_bounds(index.drop_last());
    }
}

proof fn lemma_count_none(index: Seq<Option<PathIndex>>)
    requires
        forall|k: int| 0 <= k < index.len() ==> index[k].is_none(),
    ensures
        count_pushed(index) == 0,
    decreases index.len(),
{
    if index.len() > 0 {
        lemma_count_none(index.drop_last());
    }
}

proof fn lemma_count_pushed_set(index: Seq<Option<PathIndex>>, i: int, v: PathIndex)
    requires
        0 <= i < index.len(),
        index[i].is_none(),
    ensures
        count_pushed(index.update(i, Some(v))) == count_pushed(index) + 1,
    decreases index.len(),
{
    let u = index.update(i, Some(v));
    if i == index.len() - 1 {
        assert(u.drop_last() =~= index.drop_last());
    } else {
        assert(u.drop_last() =~= index.drop_last().update(i, Some(v)));
        lemma_count_pushed_set(index.drop_last(), i, v);
    }
}

/// Whether command `c` names batch `id`, as a draw (`draws`) or as a preparation.
pub open spec fn names_batch(c: RenderCommand, id: u32, draws: bool) -> bool {
    if draws { draws_batch(c, id) } else { prepares_batch(c, id) }
}

/// The batches that `cmds` draws (or prepares) come in strictly increasing order.
pub open spec fn ids_increasing(cmds: Seq<RenderCommand>, draws: bool) -> bool {
    forall|k1: int, k2: int, a: u32, b: u32| 0 <= k1 < k2 < cmds.len() && #[trigger] names_batch(cmds[k1], a, draws)
        && #[trigger] names_batch(cmds[k2], b, draws) ==> a < b
}

/// The batches that `cmds` draws (or prepares) lie in `[1, bound)`.
pub open spec fn ids_below(cmds: Seq<RenderCommand>, bound: int, draws: bool) -> bool {
    forall|k: int, a: u32| 0 <= k < cmds.len() && #[trigger] names_batch(cmds[k], a, draws) ==> 1 <= a < bound
}

/// Appending a command that names batch `id` (or none), above all earlier ones, keeps
/// the order.
proof fn lemma_push_ordered(cmds: Seq<RenderCommand>, c: RenderCommand, id: int, bound: int, draws: bool)
    requires
        ids_increasing(cmds, draws),
        ids_below(cmds, id, draws),
        1 <= id < bound,
        forall|a: u32| #[trigger] names_batch(c, a, draws) ==> a == id,
    ensures
        ids_increasing(cmds.push(c), draws),
        ids_below(cmds.push(c), bound, draws),
{
    let c2 = cmds.push(c);
    assert forall|k: int| 0 <= k < cmds.len() implies #[trigger] c2[k] == cmds[k] by {}
    assert forall|k1: int, k2: int, a: u32, b: u32| 0 <= k1 < k2 < c2.len() && #[trigger] names_batch(c2[k1], a, draws)
        && #[trigger] names_batch(c2[k2], b, draws) implies a < b by {
        assert(c2[k1] == cmds[k1]);
        if k2 < cmds.len() {
            assert(c2[k2] == cmds[k2]);
        }
    }
    assert forall|k: int, a: u32| 0 <= k < c2.len() && #[trigger] names_batch(c2[k], a, draws) implies 1 <= a < bound by {
        if k < cmds.len() {
            assert(c2[k] == cmds[k]);
        }
    }
}

/// The clip preparation, then the other preparations, then the draws: preparations
/// and draws each come in increasing batch order, and batch 0 only first.
proof fn lemma_final_order(head: Seq<RenderCommand>, prepares: Seq<RenderCommand>, draws: Seq<RenderCommand>, bound: int)
    requires
        head.len() <= 1,
        forall|a: u32| head.len() == 1 && #[trigger] prepares_batch(head[0], a) ==> a == 0,
        forall|a: u32| head.len() == 1 ==> !#[trigger] draws_batch(head[0], a),
        ids_increasing(prepares, false),
        ids_below(prepares, bound, false),
        forall|k: int, a: u32| 0 <= k < prepares.len() ==> !#[trigger] draws_batch(prepares[k], a),
        ids_increasing(draws, true),
        forall|k: int| 0 <= k < draws.len() ==> !(#[trigger] draws[k] is PrepareTiles),
    ensures
        ids_increasing(head + prepares + draws, false),
        ids_increasing(head + prepares + draws, true),
        forall|k: int| 0 <= k < (head + prepares + draws).len() && #[trigger] prepares_batch((head + prepares + draws)[k], 0)
            ==> k == 0,
{
    let all = head + prepares + draws;
    let h = head.len() as int;
    let p = prepares.len() as int;
    assert forall|k: int| h <= k < h + p implies #[trigger] all[k] == prepares[k - h] by {}
    assert forall|k: int| h + p <= k < all.len() implies #[trigger] all[k] == draws[k - h - p] by {}
    assert forall|k1: int, k2: int, a: u32, b: u32| 0 <= k1 < k2 < all.len() && #[trigger] names_batch(all[k1], a, false)
        && #[trigger] names_batch(all[k2], b, false) implies a < b by {
        if k2 >= h + p {
            assert(all[k2] == draws[k2 - h - p]);
        } else if k1 < h {
            assert(all[k1] == head[0]);
            assert(all[k2] == prepares[k2 - h]);
        } else {
            assert(all[k1] == prepares[k1 - h]);
            assert(all[k2] == prepares[k2 - h]);
        }
    }
    assert forall|k1: int, k2: int, a: u32, b: u32| 0 <= k1 < k2 < all.len() && #[trigger] names_batch(all[k1], a, true)
        && #[trigger] names_batch(all[k2], b, true) implies a < b by {
        if k1 < h {
            assert(all[k1] == head[0]);
        } else if k1 < h + p {
            assert(all[k1] == prepares[k1 - h]);
        } else {
            assert(all[k1] == draws[k1 - h - p]);
            assert(all[k2] == draws[k2 - h - p]);
        }
    }
    assert forall|k: int| 0 <= k < all.len() && #[trigger] prepares_batch(all[k], 0) implies k == 0 by {
        if k >= h + p {
            assert(all[k] == draws[k - h - p]);
        } else if k >= h {
            assert(all[k] == prepares[k - h]);
            assert(names_batch(prepares[k - h], 0, false));
        } else {
            assert(k == 0);
        }
    }
}

/// Commands that name no batch, ending in `FlushFills`, put before a stream keep its
/// order and put the flush before every preparation.
proof fn lemma_prefix_ordering(head: Seq<RenderCommand>, rest: Seq<RenderCommand>)
    requires
        head.len() > 0,
        head.last() is FlushFills,
        forall|k: int| 0 <= k < head.len() ==> !(#[trigger] head[k] is PrepareTiles),
        forall|k: int, id: u32| 0 <= k < head.len() ==> !#[trigger] draws_batch(head[k], id),
        ids_increasing(rest, false),
        ids_increasing(rest, true),
    ensures
        ids_increasing(head + rest, false),
        ids_increasing(head + rest, true),
        forall|k: int| 0 <= k < (head + rest).len() && (#[trigger] (head + rest)[k] is PrepareTiles) ==> exists|j: int|
            0 <= j < k && (head + rest)[j] is FlushFills,
{
    let all = head + rest;
    let h = head.len() as int;
    assert forall|k: int| h <= k < all.len() implies #[trigger] all[k] == rest[k - h] by {}
    assert forall|k: int| 0 <= k < h implies #[trigger] all[k] == head[k] by {}
    assert forall|k1: int, k2: int, a: u32, b: u32| 0 <= k1 < k2 < all.len() && #[trigger] names_batch(all[k1], a, false)
        && #[trigger] names_batch(all[k2], b, false) implies a < b by {
        if k1 < h {
            assert(all[k1] == head[k1]);
        } else {
            assert(all[k1] == rest[k1 - h] && all[k2] == rest[k2 - h]);
        }
    }
    assert forall|k1: int, k2: int, a: u32, b: u32| 0 <= k1 < k2 < all.len() && #[trigger] names_batch(all[k1], a, true)
        && #[trigger] names_batch(all[k2], b, true) implies a < b by {
        if k1 < h {
            assert(all[k1] == head[k1]);
        } else {
            assert(all[k1] == rest[k1 - h] && all[k2] == rest[k2 - h]);
        }
    }
    assert forall|k: int| 0 <= k < all.len() && (#[trigger] all[k] is PrepareTiles) implies exists|j: int|
        0 <= j < k && all[j] is FlushFills by {
        if k < h {
            assert(all[k] == head[k]);
        } else {
            assert(all[h - 1] == head.last());
        }
    }
}

/// Appending a command that names no batch keeps the order and the bound.
proof fn lemma_push_unnamed(cmds: Seq<RenderCommand>, c: RenderCommand, bound: int)
    requires
        forall|a: u32| !#[trigger] draws_batch(c, a),
        ids_increasing(cmds, true),
        ids_below(cmds, bound, true),
    ensures
        ids_increasing(cmds.push(c), true),
        ids_below(cmds.push(c), bound, true),
{
    let c2 = cmds.push(c);
    assert forall|k: int| 0 <= k < cmds.len() implies #[trigger] c2[k] == cmds[k] by {}
    assert forall|k1: int, k2: int, a: u32, b: u32| 0 <= k1 < k2 < c2.len() && #[trigger] names_batch(c2[k1], a, true)
        && #[trigger] names_batch(c2[k2], b, true) implies a < b by {
        assert(c2[k1] == cmds[k1]);
        assert(c2[k2] == cmds[k2]);
    }
    assert forall|k: int, a: u32| 0 <= k < c2.len() && #[trigger] names_batch(c2[k], a, true) implies 1 <= a < bound by {
        assert(c2[k] == cmds[k]);
    }
}

/// Every batch drawn in `cmds` is prepared at an earlier position.
pub open spec fn prepared_before_drawn(cmds: Seq<RenderCommand>) -> bool {
    forall|k: int, id: u32| 0 <= k < cmds.len() && #[trigger] draws_batch(cmds[k], id) ==> exists|j: int|
        0 <= j < k && #[trigger] prepares_batch(cmds[j], id)
}

/// The number of draw paths that command `c` prepares (none for the clip batch 0).
pub open spec fn paths_prepared_by(c: RenderCommand) -> int {
    match c {
        RenderCommand::PrepareTiles(p) => if p.batch_id.0 != 0 { p.path_count as int } else { 0 },
        _ => 0,
    }
}

/// The number of draw paths that the commands `cmds` prepare.
pub open spec fn prepared_paths(cmds: Seq<RenderCommand>) -> int
    decreases cmds.len(),
{
    if cmds.len() == 0 { 0 } else { prepared_paths(cmds.drop_last()) + paths_prepared_by(cmds.last()) }
}

proof fn lemma_prepared_paths_push(cmds: Seq<RenderCommand>, c: RenderCommand)
    ensures
        prepared_paths(cmds.push(c)) == prepared_paths(cmds) + paths_prepared_by(c),
{
    assert(cmds.push(c).drop_last() =~= cmds);
}

proof fn lemma_prepared_paths_concat(a: Seq<RenderCommand>, b: Seq<RenderCommand>)
    ensures
        prepared_paths(a + b) == prepared_paths(a) + prepared_paths(b),
    decreases b.len(),
{
    if b.len() == 0 {
        assert(a + b =~= a);
    } else {
        lemma_prepared_paths_concat(a, b.drop_last());
        assert((a + b).drop_last() =~= a + b.drop_last());
        assert((a + b).last() == b.last());
    }
}

/// Number of paths that item `item` draws.
pub open spec fn range_len(item: DisplayItem) -> int {
    match item {
        DisplayItem::DrawPaths { start_index, end_index } => if end_index > start_index {
            end_index - start_index
        } else {
            0
        },
        _ => 0,
    }
}

/// Number of paths that the first `i` items draw.
pub open spec fn draws_before(items: Seq<DisplayItem>, i: int) -> int
    decreases i,
{
    if i <= 0 { 0 } else { draws_before(items, i - 1) + range_len(items[i - 1]) }
}

proof fn lemma_draws_monotone(items: Seq<DisplayItem>, i: int, j: int)
    requires
        0 <= i <= j,
    ensures
        draws_before(items, i) <= draws_before(items, j),
    decreases j - i,
{
    if i < j {
        lemma_draws_monotone(items, i, j - 1);
    }
}

/// A path's solid tiles lie in `rect`, where it writes the Z-buffer.
pub open spec fn solid_tiles_within(path: BuiltPath, rect: TileRect) -> bool {
    path.occluders.is_some() ==> forall|k: int| 0 <= k < path.tiles.data@.len() && (#[trigger] path.tiles.data@[k]).is_solid()
        ==> rect.contains(path.tiles.data@[k].tile_x as int, path.tiles.data@[k].tile_y as int)
}

fn same_texture(a: &Option<TileBatchTexture>, b: &Option<TileBatchTexture>) -> (r: bool)
    ensures
        r == (*a == *b),
{
    match (a, b) {
        (Some(x), Some(y)) => x.page.0 == y.page.0 && x.sampling_flags == y.sampling_flags
            && x.composite_op == y.composite_op,
        (None, None) => true,
        _ => false,
    }
}

/// A new pair of batches with identifier `id` for paths like `draw_path`.
fn new_batches(id: u32, rect: TileRect, gpu_features: RendererGPUFeatures, draw_path: &BuiltDrawPath) -> (r: (PrepareTilesBatch, DrawTileBatch))
    requires
        rect.wf(),
    ensures
        r.0.wf(),
        r.0.batch_id.0 == id,
        r.1.tile_batch_id.0 == id,
        r.0.path_count == 0,
        gpu_features.prepare_tiles_on_gpu <==> r.0.modal is GPU,
        r.0.modal matches PrepareTilesModalInfo::CPU(c) ==> c.z_buffer.rect == rect,
        r.0.tiles@.len() == 0,
        r.1.color_texture == draw_path.color_texture,
        r.1.filter == draw_path.filter,
        r.1.blend_mode == draw_path.blend_mode,
{
    let prepare = PrepareTilesBatch::new(TileBatchId(id), rect, gpu_features);
    let draw = DrawTileBatch {
        tile_batch_id: TileBatchId(id),
        color_texture: draw_path.color_texture,
        filter: draw_path.filter,
        blend_mode: draw_path.blend_mode,
    };
    (prepare, draw)
}

impl SceneBuilder {
    /// The display list draws existing paths, fewer than `i32::MAX - 1` in all; every
    /// built path is well formed, writes Z only inside the view box, and names an
    /// existing clip path, whose clip tiles it holds when clips are computed on the CPU.
    pub open spec fn batching_inputs_ok(
        &self,
        built_draw_paths: Seq<BuiltDrawPath>,
        built_clip_paths: Seq<BuiltPath>,
        gpu_features: RendererGPUFeatures,
    ) -> bool {
        &&& draws_before(self.scene.display_list@, self.scene.display_list@.len() as int) < i32::MAX - 1
        &&& forall|k: int| 0 <= k < self.scene.display_list@.len() ==> match #[trigger] self.scene.display_list@[k] {
                DisplayItem::DrawPaths { start_index, end_index } => end_index <= built_draw_paths.len(),
                _ => true,
            }
        &&& forall|i: int| 0 <= i < built_draw_paths.len() ==> {
                let d = #[trigger] built_draw_paths[i];
                &&& d.path.wf()
                &&& solid_tiles_within(d.path, crate::tile_map::tile_bounds_of(self.scene.view_box))
                &&& d.clip_path_id.is_some() ==> d.clip_path_id.unwrap().0 < built_clip_paths.len()
                &&& d.clip_path_id.is_some() && !gpu_features.prepare_tiles_on_gpu ==> d.path.clip_tiles.is_some()
            }
        &&& built_clip_paths.len() <= u32::MAX
        &&& forall|i: int| 0 <= i < built_clip_paths.len() ==> {
                &&& (#[trigger] built_clip_paths[i]).wf()
                &&& solid_tiles_within(built_clip_paths[i], crate::tile_map::tile_bounds_of(self.scene.view_box))
            }
    }

    /// The scene can be built: every outline is in the coordinate range, every
    /// drawn range and clip reference names an existing path, and the counts fit.
    pub open spec fn scene_ok(&self) -> bool {
        &&& self.scene.wf()
        &&& self.scene.view_box.wf()
        &&& self.next_alpha_tile_indices.wf()
        &&& draws_before(self.scene.display_list@, self.scene.display_list@.len() as int) < i32::MAX - 1
        &&& self.scene.paths@.len() <= u32::MAX
        &&& self.scene.clip_paths@.len() <= u32::MAX
        &&& self.scene.paths@.len() + self.scene.clip_paths@.len() <= usize::MAX
        &&& forall|i: int| 0 <= i < self.scene.paths@.len() ==> {
            &&& outline_wf((#[trigger] self.scene.paths@[i]).outline@)
            &&& self.scene.paths@[i].clip_path.is_some() ==> self.scene.paths@[i].clip_path.unwrap()
                < self.scene.clip_paths@.len()
        }
        &&& forall|i: int| 0 <= i < self.scene.clip_paths@.len() ==> outline_wf(
            (#[trigger] self.scene.clip_paths@[i]).outline@,
        )
    }

    /// Tiles clip path `path_index` over the view box; returns its tiles and fills.
    fn build_clip_path(&mut self, path_index: usize) -> (r: (BuiltPath, Vec<crate::gpu_data::Fill>))
        requires
            old(self).scene_ok(),
            path_index < old(self).scene.clip_paths@.len(),
        ensures
            final(self).scene == old(self).scene,
            final(self).scene_ok(),
            old(self).next_alpha_tile_indices.issued().subset_of(final(self).next_alpha_tile_indices.issued()),
            r.0.wf(),
            solid_tiles_within(r.0, tile_bounds_of(old(self).scene.view_box)),
    {
        proof {
            assert(outline_wf(self.scene.clip_paths@[path_index as int].outline@));
        }
        let view_box = self.scene.view_box;
        let built = tile_path(
            &mut self.next_alpha_tile_indices,
            path_index as u32,
            &self.scene.clip_paths[path_index].outline,
            self.scene.clip_paths[path_index].fill_rule,
            view_box,
            &TilingPathInfo::Clip,
        );
        let ObjectBuilder { built_path, fills, bounds: _ } = built;
        (built_path, fills)
    }

    /// Tiles draw path `path_index` over the view box and resolves its clip against
    /// the built clip paths; returns it ready for batching, and its fills.
    fn build_draw_path(&mut self, path_index: usize, built_clip_paths: &Vec<BuiltPath>) -> (r: (
        BuiltDrawPath,
        Vec<crate::gpu_data::Fill>,
    ))
        requires
            old(self).scene_ok(),
            path_index < old(self).scene.paths@.len(),
            built_clip_paths@.len() == old(self).scene.clip_paths@.len(),
            forall|k: int| 0 <= k < built_clip_paths@.len() ==> (#[trigger] built_clip_paths@[k]).wf(),
        ensures
            final(self).scene == old(self).scene,
            final(self).scene_ok(),
            old(self).next_alpha_tile_indices.issued().subset_of(final(self).next_alpha_tile_indices.issued()),
            r.0.path.wf(),
            solid_tiles_within(r.0.path, tile_bounds_of(old(self).scene.view_box)),
            r.0.clip_path_id.is_some() ==> r.0.clip_path_id.unwrap().0 < built_clip_paths@.len(),
            r.0.clip_path_id.is_some() ==> r.0.path.clip_tiles.is_some(),
    {
        proof {
            assert(outline_wf(self.scene.paths@[path_index as int].outline@));
        }
        let view_box = self.scene.view_box;
        let path = &self.scene.paths[path_index];
        let info = TilingPathInfo::Draw(DrawTilingPathInfo {
            paint_id: path.paint.0,
            paint_is_opaque: path.paint_is_opaque,
            blend_mode: path.blend_mode,
            built_clip_path: path.clip_path,
            fill_rule: path.fill_rule,
        });
        let built = tile_path(
            &mut self.next_alpha_tile_indices,
            path_index as u32,
            &self.scene.paths[path_index].outline,
            self.scene.paths[path_index].fill_rule,
            view_box,
            &info,
        );
        let ObjectBuilder { built_path, fills, bounds: _ } = built;
        let mut built_path = built_path;
        let path = &self.scene.paths[path_index];
        match path.clip_path {
            Some(c) => {
                proof {
                    assert(built_clip_paths@[c as int].wf());
                }
                built_path.resolve_clip_tiles(&built_clip_paths[c as usize]);
            },
            None => {},
        }
        let clip_path_id = match path.clip_path {
            Some(c) => Some(PathIndex(c)),
            None => None,
        };
        let built_draw_path = BuiltDrawPath {
            path: built_path,
            clip_path_id,
            blend_mode: path.blend_mode,
            filter: path.filter,
            color_texture: path.color_texture,
            mask_0_fill_rule: path.fill_rule,
        };
        (built_draw_path, fills)
    }

    /// Builds the commands of a frame: the start of the frame, the fills of every clip
    /// path and then every draw path as each is tiled, the flush of the fills, and
    /// the tile batches. Every batch drawn is prepared before.
    pub fn build(&mut self, gpu_features: RendererGPUFeatures) -> (r: Vec<RenderCommand>)
        requires
            old(self).scene_ok(),
        ensures
            prepared_before_drawn(r@),
            prepared_paths(r@) == draws_before(old(self).scene.display_list@, old(self).scene.display_list@.len() as int),
            ids_increasing(r@, false),
            ids_increasing(r@, true),
            r@.last() is Finish,
            target_changes(r@) == item_target_changes(old(self).scene.display_list@),
            forall|k: int| 0 <= k < r@.len() && (#[trigger] r@[k] is PrepareTiles) ==> exists|j: int| 0 <= j < k
                && r@[j] is FlushFills,
            r@.len() > 0,
            r@[0] == (RenderCommand::Start {
                path_count: (old(self).scene.paths@.len() + old(self).scene.clip_paths@.len()) as usize,
                needs_readable_framebuffer: old(self).scene.needs_readable_framebuffer_spec(),
            }),
            final(self).next_alpha_tile_indices.wf(),
            old(self).next_alpha_tile_indices.issued().subset_of(final(self).next_alpha_tile_indices.issued()),
    {
        let timer = crate::clock::BuildTimer::start();
        let needs_readable_framebuffer = self.needs_readable_framebuffer();
        let clip_path_count = self.scene.clip_paths.len();
        let draw_path_count = self.scene.paths.len();
        let mut head: Vec<RenderCommand> = Vec::new();
        head.push(RenderCommand::Start {
            path_count: clip_path_count + draw_path_count,
            needs_readable_framebuffer,
        });
        let view_box = self.scene.view_box;
        let ghost scene_rect = tile_bounds_of(view_box);
        let ghost issued0 = self.next_alpha_tile_indices.issued();
        let mut built_clip_paths: Vec<BuiltPath> = Vec::new();
        let mut i: usize = 0;
        while i < clip_path_count
            invariant
                self.scene_ok(),
                self.scene == old(self).scene,
                clip_path_count == self.scene.clip_paths@.len(),
                view_box == self.scene.view_box,
                scene_rect == tile_bounds_of(view_box),
                i <= clip_path_count,
                built_clip_paths@.len() == i,
                issued0 == old(self).next_alpha_tile_indices.issued(),
                issued0.subset_of(self.next_alpha_tile_indices.issued()),
                forall|k: int| 0 <= k < i ==> {
                    &&& (#[trigger] built_clip_paths@[k]).wf()
                    &&& solid_tiles_within(built_clip_paths@[k], scene_rect)
                },
                forall|k: int, id: u32| 0 <= k < head@.len() ==> !#[trigger] draws_batch(head@[k], id),
                forall|k: int| 0 <= k < head@.len() ==> !(#[trigger] head@[k] is PrepareTiles),
                forall|k: int| 0 <= k < head@.len() ==> !changes_target(#[trigger] head@[k]),
                head@.len() > 0,
                head@[0] == (RenderCommand::Start {
                    path_count: (old(self).scene.paths@.len() + old(self).scene.clip_paths@.len()) as usize,
                    needs_readable_framebuffer: old(self).scene.needs_readable_framebuffer_spec(),
                }),
            decreases clip_path_count - i,
        {
            let (built_path, fills) = self.build_clip_path(i);
            if fills.len() > 0 {
                head.push(RenderCommand::AddFills(fills));
            }
            built_clip_paths.push(built_path);
            i = i + 1;
        }
        let mut built_draw_paths: Vec<BuiltDrawPath> = Vec::new();
        let mut i: usize = 0;
        while i < draw_path_count
            invariant
                self.scene_ok(),
                self.scene == old(self).scene,
                clip_path_count == self.scene.clip_paths@.len(),
                draw_path_count == self.scene.paths@.len(),
                view_box == self.scene.view_box,
                scene_rect == tile_bounds_of(view_box),
                i <= draw_path_count,
                built_draw_paths@.len() == i,
                built_clip_paths@.len() == clip_path_count,
                issued0 == old(self).next_alpha_tile_indices.issued(),
                issued0.subset_of(self.next_alpha_tile_indices.issued()),
                forall|k: int| 0 <= k < clip_path_count ==> {
                    &&& (#[trigger] built_clip_paths@[k]).wf()
                    &&& solid_tiles_within(built_clip_paths@[k], scene_rect)
                },
                forall|k: int| 0 <= k < i ==> {
                    let d = #[trigger] built_draw_paths@[k];
                    &&& d.path.wf()
                    &&& solid_tiles_within(d.path, scene_rect)
                    &&& d.clip_path_id.is_some() ==> d.clip_path_id.unwrap().0 < clip_path_count
                    &&& d.clip_path_id.is_some() ==> d.path.clip_tiles.is_some()
                },
                forall|k: int, id: u32| 0 <= k < head@.len() ==> !#[trigger] draws_batch(head@[k], id),
                forall|k: int| 0 <= k < head@.len() ==> !(#[trigger] head@[k] is PrepareTiles),
                forall|k: int| 0 <= k < head@.len() ==> !changes_target(#[trigger] head@[k]),
                head@.len() > 0,
                head@[0] == (RenderCommand::Start {
                    path_count: (old(self).scene.paths@.len() + old(self).scene.clip_paths@.len()) as usize,
                    needs_readable_framebuffer: old(self).scene.needs_readable_framebuffer_spec(),
                }),
            decreases draw_path_count - i,
        {
            let (built_draw_path, fills) = self.build_draw_path(i, &built_clip_paths);
            if fills.len() > 0 {
                head.push(RenderCommand::AddFills(fills));
            }
            built_draw_paths.push(built_draw_path);
            i = i + 1;
        }
        head.push(RenderCommand::FlushFills);
        let ghost head_seq = head@;
        let mut batches = self.build_tile_batches(&built_draw_paths, &built_clip_paths, gpu_features);
        let ghost rest = batches@;
        head.append(&mut batches);
        proof {
            lemma_prefix_without_draws(head_seq, rest);
            lemma_prefix_ordering(head_seq, rest);
            assert(head@ =~= head_seq + rest);
            lemma_no_prepares(head_seq);
            lemma_prepared_paths_concat(head_seq, rest);
            lemma_target_changes_concat(head_seq, rest);
            lemma_no_target_changes(head_seq);
            assert(target_changes(head_seq) + target_changes(rest) =~= target_changes(rest));
        }
        let finish = RenderCommand::Finish { cpu_build_time: timer.elapsed_nanos() };
        let ghost body = head@;
        proof {
            lemma_prepared_paths_push(body, finish);
            lemma_target_changes_push(body, finish);
            assert forall|k1: int, k2: int, a: u32, b: u32| 0 <= k1 < k2 < body.push(finish).len()
                && #[trigger] names_batch(body.push(finish)[k1], a, false)
                && #[trigger] names_batch(body.push(finish)[k2], b, false) implies a < b by {
                assert(body.push(finish)[k1] == body[k1]);
                assert(body.push(finish)[k2] == body[k2]);
            }
            assert forall|k1: int, k2: int, a: u32, b: u32| 0 <= k1 < k2 < body.push(finish).len()
                && #[trigger] names_batch(body.push(finish)[k1], a, true)
                && #[trigger] names_batch(body.push(finish)[k2], b, true) implies a < b by {
                assert(body.push(finish)[k1] == body[k1]);
                assert(body.push(finish)[k2] == body[k2]);
            }
            assert forall|k: int, id: u32| 0 <= k < body.push(finish).len() && #[trigger] draws_batch(body.push(finish)[k], id)
                implies exists|j: int| 0 <= j < k && #[trigger] prepares_batch(body.push(finish)[j], id) by {
                assert(body.push(finish)[k] == body[k]);
                let j = choose|j: int| 0 <= j < k && #[trigger] prepares_batch(body[j], id);
                assert(body.push(finish)[j] == body[j]);
            }
            assert forall|k: int| 0 <= k < body.push(finish).len() && (#[trigger] body.push(finish)[k] is PrepareTiles)
                implies exists|j: int| 0 <= j < k && body.push(finish)[j] is FlushFills by {
                assert(body.push(finish)[k] == body[k]);
                let j = choose|j: int| 0 <= j < k && body[j] is FlushFills;
                assert(body.push(finish)[j] == body[j]);
            }
            assert(body.push(finish)[0] == body[0]);
        }
        head.push(finish);
        head
    }

    /// Groups the drawn paths into batches and returns the commands that prepare and
    /// draw them. Consecutive paths of one display item with the same color texture,
    /// filter and blend mode share a batch; clip paths go to batch 0, each once. The
    /// clip batch comes first (if it has tiles), then every other preparation, then
    /// the draws and render-target changes in display order.
    pub fn build_tile_batches(
        &self,
        built_draw_paths: &Vec<BuiltDrawPath>,
        built_clip_paths: &Vec<BuiltPath>,
        gpu_features: RendererGPUFeatures,
    ) -> (r: Vec<RenderCommand>)
        requires
            self.scene.view_box.wf(),
            self.batching_inputs_ok(built_draw_paths@, built_clip_paths@, gpu_features),
        ensures
            prepared_before_drawn(r@),
            prepared_paths(r@) == draws_before(self.scene.display_list@, self.scene.display_list@.len() as int),
            ids_increasing(r@, false),
            ids_increasing(r@, true),
            forall|k: int| 0 <= k < r@.len() && #[trigger] prepares_batch(r@[k], 0) ==> k == 0,
            r@.len() > 0 ==> clip_batch_paths(r@[0]) <= built_clip_paths@.len(),
            target_changes(r@) == item_target_changes(self.scene.display_list@),
            count_batches(r@) == runs_before(self.scene.display_list@, built_draw_paths@, self.scene.display_list@.len() as int),
            clip_sent(r@) == (used_clip_tiles(
                self.scene.display_list@,
                built_draw_paths@,
                built_clip_paths@,
                built_clip_paths@.len() as int,
            ) > 0),
            clip_sent(r@) ==> clip_batch_paths(r@[0]) == used_clip_count(
                self.scene.display_list@,
                built_draw_paths@,
                built_clip_paths@.len() as int,
            ) && clip_batch_tile_count(r@[0]) == used_clip_tiles(
                self.scene.display_list@,
                built_draw_paths@,
                built_clip_paths@,
                built_clip_paths@.len() as int,
            ),
            ({
                let items = self.scene.display_list@;
                let h = if clip_sent(r@) { 1int } else { 0int };
                let nb = runs_before(items, built_draw_paths@, items.len() as int);
                &&& r@.len() == h + nb + items_draws(items, built_draw_paths@, items.len() as int).len()
                &&& r@.subrange(h + nb, r@.len() as int) == items_draws(items, built_draw_paths@, items.len() as int)
                &&& forall|m: int| 1 <= m <= nb ==> prep_holds(
                    #[trigger] r@[h + m - 1],
                    m,
                    batch_tiles(items, built_draw_paths@, items.len() as int, m),
                )
            }),
    {
        let scene_tile_rect = round_rect_out_to_tile_bounds(self.scene.view_box);
        let items = &self.scene.display_list;
        let mut clip_prepare_batch = PrepareTilesBatch::new(TileBatchId(0), scene_tile_rect, gpu_features);
        let mut clip_index: Vec<Option<PathIndex>> = Vec::new();
        let mut n: usize = 0;
        while n < built_clip_paths.len()
            invariant
                n <= built_clip_paths@.len(),
                clip_index@.len() == n,
                forall|k: int| 0 <= k < clip_index@.len() ==> clip_index@[k].is_none(),
            decreases built_clip_paths@.len() - n,
        {
            clip_index.push(None);
            n = n + 1;
        }
        proof {
            assert forall|k: int| 0 <= k < clip_index@.len() implies clip_index@[k].is_none() by {}
            lemma_count_none(clip_index@);
            lemma_tiles_pushed_none(clip_index@, built_clip_paths@);
        }
        let mut prepare_commands: Vec<RenderCommand> = Vec::new();
        let mut draw_commands: Vec<RenderCommand> = Vec::new();
        let mut next_batch_id: u32 = 1;
        let ghost mut done: int = 0;
        let mut i: usize = 0;
        proof {
            lemma_draws_monotone(items@, 0, items@.len() as int);
        }
        while i < items.len()
            invariant
                items == &self.scene.display_list,
                self.batching_inputs_ok(built_draw_paths@, built_clip_paths@, gpu_features),
                forall|k: int, id: u32| 0 <= k < prepare_commands@.len() ==> !#[trigger] draws_batch(prepare_commands@[k], id),
                i <= items@.len(),
                scene_tile_rect == crate::tile_map::tile_bounds_of(self.scene.view_box),
                scene_tile_rect.wf(),
                clip_index@.len() == built_clip_paths@.len(),
                clip_prepare_batch.wf(),
                gpu_features.prepare_tiles_on_gpu <==> clip_prepare_batch.modal is GPU,
                clip_prepare_batch.modal matches PrepareTilesModalInfo::CPU(c) ==> c.z_buffer.rect == scene_tile_rect,
                clip_prepare_batch.path_count <= done,
                clip_prepare_batch.batch_id.0 == 0,
                clip_prepare_batch.path_count == count_pushed(clip_index@),
                0 <= done == draws_before(items@, i as int),
                clip_prepare_batch.tiles@.len() == tiles_pushed(clip_index@, built_clip_paths@),
                forall|c: int| 0 <= c < clip_index@.len() ==> #[trigger] clip_index@[c].is_some() == used_before(
                    items@, built_draw_paths@, i as int, c),
                prepared_paths(prepare_commands@) == done,
                1 <= next_batch_id,
                next_batch_id <= done + 1,
                draws_before(items@, items@.len() as int) < i32::MAX - 1,
                drawn_are_prepared(draw_commands@, prepare_commands@),
                forall|k: int| 0 <= k < draw_commands@.len() ==> !(#[trigger] draw_commands@[k] is PrepareTiles),
                ids_increasing(prepare_commands@, false),
                ids_below(prepare_commands@, next_batch_id as int, false),
                ids_increasing(draw_commands@, true),
                ids_below(draw_commands@, next_batch_id as int, true),
                target_changes(draw_commands@) == item_target_changes(items@.take(i as int)),
                forall|k: int| 0 <= k < prepare_commands@.len() ==> !changes_target(#[trigger] prepare_commands@[k]),
                forall|k: int| 0 <= k < prepare_commands@.len() ==> is_draw_batch_prep(#[trigger] prepare_commands@[k]),
                prepare_commands@.len() + 1 == next_batch_id,
                next_batch_id - 1 == runs_before(items@, built_draw_paths@, i as int),
                draw_commands@ == items_draws(items@, built_draw_paths@, i as int),
                forall|m: int| 1 <= m < next_batch_id ==> prep_holds(
                    #[trigger] prepare_commands@[m - 1],
                    m,
                    batch_tiles(items@, built_draw_paths@, items@.len() as int, m),
                ),
            decreases items@.len() - i,
        {
            proof {
                lemma_draws_monotone(items@, i + 1, items@.len() as int);
            }
            match items[i] {
                DisplayItem::PushRenderTarget(id) => {
                    let c = RenderCommand::PushRenderTarget(id);
                    proof {
                        lemma_push_keeps(draw_commands@, c, prepare_commands@);
                        lemma_push_unnamed(draw_commands@, c, next_batch_id as int);
                        lemma_target_changes_push(draw_commands@, c);
                    }
                    draw_commands.push(c);
                    proof {
                        assert(draw_commands@ =~= items_draws(items@, built_draw_paths@, i + 1));
                    }
                },
                DisplayItem::PopRenderTarget => {
                    let c = RenderCommand::PopRenderTarget;
                    proof {
                        lemma_push_keeps(draw_commands@, c, prepare_commands@);
                        lemma_push_unnamed(draw_commands@, c, next_batch_id as int);
                        lemma_target_changes_push(draw_commands@, c);
                    }
                    draw_commands.push(c);
                    proof {
                        assert(draw_commands@ =~= items_draws(items@, built_draw_paths@, i + 1));
                    }
                },
                DisplayItem::DrawPaths { start_index, end_index } => {
                    proof {
                        assert(self.scene.display_list@[i as int] == (DisplayItem::DrawPaths { start_index, end_index }));
                    }
                    let mut batches: Option<(PrepareTilesBatch, DrawTileBatch)> = None;
                    let ghost done0 = done;
                    let ghost mut rs: int = start_index as int;
                    let ghost base = runs_before(items@, built_draw_paths@, i as int);
                    let ghost len = items@.len() as int;
                    proof {
                        lemma_runs_before_monotone(items@, built_draw_paths@, i + 1, len);
                    }
                    let mut p: u32 = start_index;
                    while p < end_index
                        invariant
                            items == &self.scene.display_list,
                            self.batching_inputs_ok(built_draw_paths@, built_clip_paths@, gpu_features),
                            forall|k: int, id: u32| 0 <= k < prepare_commands@.len() ==> !#[trigger] draws_batch(prepare_commands@[k], id),
                            i < items@.len(),
                            items@[i as int] == (DisplayItem::DrawPaths { start_index, end_index }),
                            end_index <= built_draw_paths@.len(),
                            start_index <= p,
                            scene_tile_rect == crate::tile_map::tile_bounds_of(self.scene.view_box),
                            scene_tile_rect.wf(),
                            clip_index@.len() == built_clip_paths@.len(),
                            clip_prepare_batch.wf(),
                            gpu_features.prepare_tiles_on_gpu <==> clip_prepare_batch.modal is GPU,
                            clip_prepare_batch.modal matches PrepareTilesModalInfo::CPU(c) ==> c.z_buffer.rect == scene_tile_rect,
                            clip_prepare_batch.path_count <= done,
                            clip_prepare_batch.batch_id.0 == 0,
                            clip_prepare_batch.path_count == count_pushed(clip_index@),
                            done0 <= draws_before(items@, i as int),
                            clip_prepare_batch.tiles@.len() == tiles_pushed(clip_index@, built_clip_paths@),
                            forall|c: int| 0 <= c < clip_index@.len() ==> #[trigger] clip_index@[c].is_some() == (used_before(
                                items@, built_draw_paths@, i as int, c) || used_in_range(built_draw_paths@, start_index as int, p as int, c)),
                            done == done0 + p - start_index,
                            p <= end_index || p == start_index,
                            next_batch_id <= done + 1,
                            1 <= next_batch_id,
                            prepared_paths(prepare_commands@) + (if batches is Some { batches.unwrap().0.path_count as int } else { 0 }) == done,
                            draws_before(items@, i + 1) == draws_before(items@, i as int) + range_len(items@[i as int]),
                            draws_before(items@, i + 1) <= draws_before(items@, items@.len() as int),
                            draws_before(items@, items@.len() as int) < i32::MAX - 1,
                            batches matches Some(b) ==> {
                                &&& b.0.wf()
                                &&& b.0.batch_id == b.1.tile_batch_id
                                &&& b.0.path_count <= done
                                &&& (gpu_features.prepare_tiles_on_gpu <==> b.0.modal is GPU)
                                &&& (b.0.modal matches PrepareTilesModalInfo::CPU(c) ==> c.z_buffer.rect == scene_tile_rect)
                                &&& b.0.batch_id.0 < next_batch_id
                                &&& b.0.batch_id.0 >= 1
                            },
                            drawn_are_prepared(draw_commands@, prepare_commands@),
                            forall|k: int| 0 <= k < draw_commands@.len() ==> !(#[trigger] draw_commands@[k] is PrepareTiles),
                            ids_increasing(prepare_commands@, false),
                            ids_increasing(draw_commands@, true),
                            batches is None ==> ids_below(prepare_commands@, next_batch_id as int, false)
                                && ids_below(draw_commands@, next_batch_id as int, true),
                            batches matches Some(b) ==> ids_below(prepare_commands@, b.0.batch_id.0 as int, false)
                                && ids_below(draw_commands@, b.0.batch_id.0 as int, true)
                                && b.0.batch_id.0 + 1 == next_batch_id,
                            target_changes(draw_commands@) == item_target_changes(items@.take(i as int)),
                            forall|k: int| 0 <= k < prepare_commands@.len() ==> !changes_target(#[trigger] prepare_commands@[k]),
                            forall|k: int| 0 <= k < prepare_commands@.len() ==> is_draw_batch_prep(#[trigger] prepare_commands@[k]),
                            prepare_commands@.len() + 1 + (if batches is Some { 1int } else { 0int }) == next_batch_id,
                            next_batch_id - 1 == runs_before(items@, built_draw_paths@, i as int) + runs(built_draw_paths@, start_index as int, p as int),
                            batches is Some ==> p > start_index && same_batch_state_draw(batches.unwrap().1, built_draw_paths@[p - 1]),
                            batches is None ==> p == start_index,
                            base == runs_before(items@, built_draw_paths@, i as int),
                            len == items@.len(),
                            batches is None ==> draw_commands@ == items_draws(items@, built_draw_paths@, i as int),
                            batches matches Some(b) ==> {
                                let base = runs_before(items@, built_draw_paths@, i as int);
                                &&& start_index <= rs < p
                                &&& starts_run(built_draw_paths@, start_index as int, rs)
                                &&& (forall|q: int| rs < q < p ==> !#[trigger] starts_run(built_draw_paths@, start_index as int, q))
                                &&& draw_commands@ == items_draws(items@, built_draw_paths@, i as int) + range_draws(
                                    built_draw_paths@,
                                    start_index as int,
                                    rs,
                                    base,
                                )
                                &&& RenderCommand::DrawTiles(b.1) == draw_of(
                                    base + runs(built_draw_paths@, start_index as int, rs + 1),
                                    built_draw_paths@[rs],
                                )
                                &&& b.0.batch_id.0 == base + runs(built_draw_paths@, start_index as int, p as int)
                                &&& b.0.tiles@ == range_tiles(built_draw_paths@, start_index as int, p as int, base, b.0.batch_id.0 as int)
                            },
                            forall|m: int| 1 <= m < next_batch_id - (if batches is Some { 1int } else { 0int }) ==> prep_holds(
                                #[trigger] prepare_commands@[m - 1],
                                m,
                                batch_tiles(items@, built_draw_paths@, items@.len() as int, m),
                            ),
                        decreases end_index - p,
                    {
                        let draw_path = &built_draw_paths[p as usize];
                        proof {
                            assert(built_draw_paths@[p as int].path.wf());
                        }
                        let reuse = match &batches {
                            Some(b) => same_texture(&b.1.color_texture, &draw_path.color_texture)
                                && b.1.filter == draw_path.filter && b.1.blend_mode == draw_path.blend_mode,
                            None => false,
                        };
                        proof {
                            assert(runs(built_draw_paths@, start_index as int, p + 1) == runs(built_draw_paths@, start_index as int, p as int)
                                + if p == start_index || !same_batch_state(built_draw_paths@[p - 1], built_draw_paths@[p as int]) { 1int } else { 0int });
                            if batches is Some {
                                assert(reuse == same_batch_state(built_draw_paths@[p - 1], built_draw_paths@[p as int]));
                            }
                        }
                        let ghost was_some = batches is Some;
                        let ghost new_run = !(was_some && reuse);
                        proof {
                            assert(new_run == starts_run(built_draw_paths@, start_index as int, p as int));
                            lemma_runs_before_monotone(items@, built_draw_paths@, i as int, i + 1);
                            lemma_runs_monotone(built_draw_paths@, start_index as int, p as int, end_index as int);
                            assert(runs_before(items@, built_draw_paths@, i + 1) == base + runs(built_draw_paths@, start_index as int, end_index as int));
                        }
                        let current = batches;
                        let (mut prepare, draw) = match current {
                            Some(b) => {
                                if reuse {
                                    b
                                } else {
                                    let (old_prepare, old_draw) = b;
                                    let ghost id = old_draw.tile_batch_id.0;
                                    let pc = RenderCommand::PrepareTiles(old_prepare);
                                    let dc = RenderCommand::DrawTiles(old_draw);
                                    proof {
                                        lemma_flush_keeps(draw_commands@, prepare_commands@, pc, dc, id);
                                        lemma_prepared_paths_push(prepare_commands@, pc);
                                        lemma_push_ordered(prepare_commands@, pc, id as int, next_batch_id as int + 1, false);
                                        lemma_push_ordered(draw_commands@, dc, id as int, next_batch_id as int + 1, true);
                                        lemma_target_changes_push(draw_commands@, dc);
                                        lemma_prepare_no_change(prepare_commands@, pc);
                                    }
                                    proof {
                                        let paths = built_draw_paths@;
                                        let s0 = start_index as int;
                                        let cur = id as int;
                                        lemma_range_draws_run(paths, s0, rs, p as int, base);
                                        lemma_runs_pos(paths, s0, p as int);
                                        lemma_batch_tiles_low(items@, paths, i as int, cur);
                                        lemma_range_tiles_stable(paths, s0, p as int, end_index as int, base, cur);
                                        lemma_batch_tiles_stable(items@, paths, i + 1, len, cur);
                                        assert(batch_tiles(items@, paths, i + 1, cur) == batch_tiles(items@, paths, i as int, cur)
                                            + range_tiles(paths, s0, end_index as int, base, cur));
                                        assert(batch_tiles(items@, paths, len, cur) =~= range_tiles(paths, s0, p as int, base, cur));
                                    }
                                    let ghost pre_p = prepare_commands@;
                                    let ghost pre_d = draw_commands@;
                                    prepare_commands.push(pc);
                                    draw_commands.push(dc);
                                    proof {
                                        assert(draw_commands@ =~= items_draws(items@, built_draw_paths@, i as int) + range_draws(
                                            built_draw_paths@, start_index as int, p as int, base));
                                        assert forall|m: int| 1 <= m < next_batch_id implies prep_holds(
                                            #[trigger] prepare_commands@[m - 1], m,
                                            batch_tiles(items@, built_draw_paths@, items@.len() as int, m)) by {
                                            if m < next_batch_id - 1 {
                                                assert(prepare_commands@[m - 1] == pre_p[m - 1]);
                                            }
                                        }
                                    }
                                    let fresh = new_batches(next_batch_id, scene_tile_rect, gpu_features, draw_path);
                                    next_batch_id = next_batch_id + 1;
                                    fresh
                                }
                            },
                            None => {
                                let fresh = new_batches(next_batch_id, scene_tile_rect, gpu_features, draw_path);
                                next_batch_id = next_batch_id + 1;
                                fresh
                            },
                        };
                        let ghost idx_before = clip_index@;
                        let clip_path = match draw_path.clip_path_id {
                            Some(clip_path_id) => {
                                let ci = clip_path_id.0 as usize;
                                proof {
                                    assert(built_clip_paths@[ci as int].wf());
                                }
                                match clip_index[ci] {
                                    Some(path_index) => Some(path_index),
                                    None => {
                                        let path_index = clip_prepare_batch.push(&built_clip_paths[ci], None, gpu_features);
                                        proof {
                                            lemma_count_pushed_set(clip_index@, ci as int, path_index);
                                            lemma_tiles_pushed_set(clip_index@, built_clip_paths@, ci as int, path_index);
                                        }
                                        clip_index.set(ci, Some(path_index));
                                        Some(path_index)
                                    },
                                }
                            },
                            None => None,
                        };
                        let ghost tiles_before = prepare.tiles@;
                        prepare.push(&draw_path.path, clip_path, gpu_features);
                        batches = Some((prepare, draw));
                        proof {
                            let paths = built_draw_paths@;
                            let s0 = start_index as int;
                            if new_run {
                                rs = p as int;
                                lemma_range_tiles_outside(paths, s0, p as int, base, base + runs(paths, s0, p + 1));
                                if !was_some {
                                    assert(range_draws(paths, s0, s0, base) =~= Seq::<RenderCommand>::empty());
                                    assert(draw_commands@ =~= items_draws(items@, paths, i as int) + range_draws(paths, s0, p as int, base));
                                }
                            }
                            assert(range_tiles(paths, s0, p + 1, base, base + runs(paths, s0, p + 1))
                                =~= range_tiles(paths, s0, p as int, base, base + runs(paths, s0, p + 1)) + paths[p as int].path.tiles.data@);
                            done = done + 1;
                            let b = batches.unwrap();
                            assert(runs(paths, s0, p + 1) == runs(paths, s0, p as int) + if new_run { 1int } else { 0int });
                            assert(b.0.batch_id.0 == base + runs(paths, s0, p + 1));
                            if new_run {
                                assert(tiles_before =~= Seq::<TileObjectPrimitive>::empty());
                            }
                            assert(tiles_before == range_tiles(paths, s0, p as int, base, b.0.batch_id.0 as int));
                            assert(b.0.tiles@ == tiles_before + paths[p as int].path.tiles.data@);
                            assert(b.0.tiles@ == range_tiles(paths, s0, p + 1, base, b.0.batch_id.0 as int));
                            assert(start_index <= rs < p + 1);
                            assert(starts_run(paths, s0, rs));
                            assert forall|q: int| rs < q < p + 1 implies !#[trigger] starts_run(paths, s0, q) by {
                                if q == p {
                                    assert(!new_run);
                                }
                            }
                            assert(RenderCommand::DrawTiles(b.1) == draw_of(base + runs(paths, s0, rs + 1), paths[rs]));
                            assert(draw_commands@ == items_draws(items@, paths, i as int) + range_draws(paths, s0, rs, base));
                            assert forall|c: int| 0 <= c < clip_index@.len() implies #[trigger] clip_index@[c].is_some() == (used_before(
                                items@, paths, i as int, c) || used_in_range(paths, s0, p + 1, c)) by {
                                assert(used_in_range(paths, s0, p + 1, c) == (used_in_range(paths, s0, p as int, c)
                                    || paths[p as int].clip_path_id == Some(PathIndex(c as u32))));
                                match paths[p as int].clip_path_id {
                                    Some(cp) => {
                                        if c != cp.0 as int {
                                            assert(clip_index@[c] == idx_before[c]);
                                            assert(PathIndex(c as u32) != cp);
                                        } else {
                                            assert(clip_index@[c].is_some());
                                        }
                                    },
                                    None => {
                                        assert(clip_index@[c] == idx_before[c]);
                                    },
                                }
                            }
                        }
                        p = p + 1;
                    }
                    match batches {
                        Some(b) => {
                            let (prepare, draw) = b;
                            let ghost id = draw.tile_batch_id.0;
                            let pc = RenderCommand::PrepareTiles(prepare);
                            let dc = RenderCommand::DrawTiles(draw);
                            proof {
                                lemma_flush_keeps(draw_commands@, prepare_commands@, pc, dc, id);
                                lemma_prepared_paths_push(prepare_commands@, pc);
                                lemma_push_ordered(prepare_commands@, pc, id as int, next_batch_id as int, false);
                                lemma_push_ordered(draw_commands@, dc, id as int, next_batch_id as int, true);
                                lemma_target_changes_push(draw_commands@, dc);
                                lemma_prepare_no_change(prepare_commands@, pc);
                            }
                            proof {
                                let paths = built_draw_paths@;
                                let s0 = start_index as int;
                                let cur = id as int;
                                lemma_range_draws_run(paths, s0, rs, end_index as int, base);
                                lemma_runs_pos(paths, s0, end_index as int);
                                lemma_batch_tiles_low(items@, paths, i as int, cur);
                                lemma_runs_before_monotone(items@, paths, i + 1, len);
                                assert(runs_before(items@, paths, i + 1) == base + runs(paths, s0, end_index as int));
                                lemma_batch_tiles_stable(items@, paths, i + 1, len, cur);
                                assert(batch_tiles(items@, paths, len, cur) =~= range_tiles(paths, s0, end_index as int, base, cur));
                            }
                            let ghost pre = prepare_commands@;
                            prepare_commands.push(pc);
                            proof {
                                assert forall|k: int| 0 <= k < prepare_commands@.len() implies is_draw_batch_prep(#[trigger] prepare_commands@[k]) by {
                                    if k < pre.len() {
                                        assert(prepare_commands@[k] == pre[k]);
                                    }
                                }
                                assert forall|m: int| 1 <= m < next_batch_id implies prep_holds(
                                    #[trigger] prepare_commands@[m - 1], m,
                                    batch_tiles(items@, built_draw_paths@, items@.len() as int, m)) by {
                                    if m < next_batch_id - 1 {
                                        assert(prepare_commands@[m - 1] == pre[m - 1]);
                                    }
                                }
                            }
                            draw_commands.push(dc);
                            proof {
                                assert(draw_commands@ =~= items_draws(items@, built_draw_paths@, i as int) + range_draws(
                                    built_draw_paths@, start_index as int, end_index as int, base));
                            }
                        },
                        None => {
                            proof {
                                assert(range_draws(built_draw_paths@, start_index as int, end_index as int, base)
                                    =~= Seq::<RenderCommand>::empty());
                                assert(draw_commands@ =~= items_draws(items@, built_draw_paths@, i as int) + range_draws(
                                    built_draw_paths@, start_index as int, end_index as int, base));
                            }
                        },
                    }
                },
            }
            proof {
                assert(runs_before(items@, built_draw_paths@, i + 1) == runs_before(items@, built_draw_paths@, i as int) + match items@[i as int] {
                    DisplayItem::DrawPaths { start_index, end_index } => runs(built_draw_paths@, start_index as int, end_index as int),
                    _ => 0,
                });
                assert(draws_before(items@, i + 1) == draws_before(items@, i as int) + range_len(items@[i as int]));
                assert(items@.take(i + 1).drop_last() =~= items@.take(i as int));
                assert(items@.take(i + 1).last() == items@[i as int]);
                assert forall|c: int| 0 <= c < clip_index@.len() implies #[trigger] clip_index@[c].is_some() == used_before(
                    items@, built_draw_paths@, i + 1, c) by {
                    match items@[i as int] {
                        DisplayItem::DrawPaths { start_index, end_index } => {
                            if end_index <= start_index {
                                assert(!used_in_range(built_draw_paths@, start_index as int, end_index as int, c));
                                assert(!used_in_range(built_draw_paths@, start_index as int, start_index as int, c));
                            }
                        },
                        _ => {},
                    }
                }
            }
            i = i + 1;
        }
        let mut commands: Vec<RenderCommand> = Vec::new();
        proof {
            lemma_count_pushed_bounds(clip_index@);
        }
        let ghost clip_count = clip_prepare_batch.path_count as int;
        let ghost clip_tiles = clip_prepare_batch.tiles@.len() as int;
        proof {
            lemma_pushed_match(items@, built_draw_paths@, built_clip_paths@, clip_index@);
        }
        if clip_prepare_batch.tiles.len() > 0 {
            let c = RenderCommand::PrepareTiles(clip_prepare_batch);
            proof {
                assert(paths_prepared_by(c) == 0);
            }
            commands.push(c);
        }
        let ghost head = commands@;
        proof {
            assert forall|k: int, id: u32| 0 <= k < head.len() implies !#[trigger] draws_batch(head[k], id) by {}
            if head.len() > 0 {
                assert(head =~= Seq::<RenderCommand>::empty().push(head[0]));
                lemma_prepared_paths_push(Seq::<RenderCommand>::empty(), head[0]);
            } else {
                assert(head =~= Seq::<RenderCommand>::empty());
            }
            assert(prepared_paths(head) == 0);
            lemma_no_prepares(draw_commands@);
        }
        let ghost prepares = prepare_commands@;
        let ghost draws = draw_commands@;
        commands.append(&mut prepare_commands);
        commands.append(&mut draw_commands);
        proof {
            lemma_concat_order(head, prepares, draws);
            assert(commands@ =~= head + prepares + draws);
            lemma_prepared_paths_concat(head, prepares);
            lemma_prepared_paths_concat(head + prepares, draws);
            assert forall|k: int, a: u32| 0 <= k < prepares.len() implies !#[trigger] draws_batch(prepares[k], a) by {
                assert(!draws_batch(prepares[k], a));
            }
            lemma_final_order(head, prepares, draws, next_batch_id as int);
            let all = head + prepares + draws;
            lemma_target_changes_concat(head, prepares);
            lemma_target_changes_concat(head + prepares, draws);
            assert forall|k: int| 0 <= k < head.len() implies !changes_target(#[trigger] head[k]) by {}
            lemma_no_target_changes(head);
            lemma_no_target_changes(prepares);
            assert(items@.take(items@.len() as int) =~= items@);
            assert(target_changes(all) =~= target_changes(draws));
            lemma_count_batches_concat(head, prepares);
            lemma_count_batches_concat(head + prepares, draws);
            lemma_count_batches_all(prepares);
            lemma_count_batches_none(draws);
            if head.len() == 1 {
                assert(head =~= Seq::<RenderCommand>::empty().push(head[0]));
                lemma_count_batches_push(Seq::<RenderCommand>::empty(), head[0]);
            } else {
                assert(head =~= Seq::<RenderCommand>::empty());
            }
            if head.len() == 1 {
                assert(all[0] == head[0]);
                assert(clip_sent(all));
            }
            if all.len() > 0 {
                if head.len() == 1 {
                    assert(all[0] == head[0]);
                } else if prepares.len() > 0 {
                    assert(all[0] == prepares[0]);
                    if let RenderCommand::PrepareTiles(b) = prepares[0] {
                        assert(names_batch(prepares[0], b.batch_id.0, false));
                    }
                } else {
                    assert(all[0] == draws[0]);
                }
            }
        }
        commands
    }
}

/// Commands that draw no batch, put before a stream, keep its batches prepared
/// before they are drawn.
proof fn lemma_prefix_without_draws(head: Seq<RenderCommand>, rest: Seq<RenderCommand>)
    requires
        forall|k: int, id: u32| 0 <= k < head.len() ==> !#[trigger] draws_batch(head[k], id),
        prepared_before_drawn(rest),
    ensures
        prepared_before_drawn(head + rest),
{
    let all = head + rest;
    assert forall|k: int, id: u32| 0 <= k < all.len() && #[trigger] draws_batch(all[k], id) implies exists|j: int|
        0 <= j < k && #[trigger] prepares_batch(all[j], id) by {
        if k < head.len() {
            assert(all[k] == head[k]);
        } else {
            assert(all[k] == rest[k - head.len()]);
            assert(draws_batch(rest[k - head.len()], id));
            let j = choose|j: int| 0 <= j < k - head.len() && #[trigger] prepares_batch(rest[j], id);
            assert(all[head.len() + j] == rest[j]);
            assert(prepares_batch(all[head.len() + j], id));
        }
    }
}

/// Every batch drawn in `draws` is prepared somewhere in `prepares`.
pub open spec fn drawn_are_prepared(draws: Seq<RenderCommand>, prepares: Seq<RenderCommand>) -> bool {
    forall|k: int, id: u32| 0 <= k < draws.len() && #[trigger] draws_batch(draws[k], id)
        ==> exists|j: int| 0 <= j < prepares.len() && #[trigger] prepares_batch(prepares[j], id)
}

/// A command that draws no batch keeps every drawn batch prepared.
proof fn lemma_push_keeps(draws: Seq<RenderCommand>, c: RenderCommand, prepares: Seq<RenderCommand>)
    requires
        forall|id: u32| !draws_batch(c, id),
        drawn_are_prepared(draws, prepares),
    ensures
        drawn_are_prepared(draws.push(c), prepares),
{
    let longer = draws.push(c);
    assert forall|k: int, id: u32| 0 <= k < longer.len() && #[trigger] draws_batch(longer[k], id)
        implies exists|j: int| 0 <= j < prepares.len() && #[trigger] prepares_batch(prepares[j], id) by {
        if k < draws.len() {
            assert(longer[k] == draws[k]);
        }
    }
}

/// Adding the draw of a batch together with its preparation keeps every drawn
/// batch prepared.
proof fn lemma_flush_keeps(
    draws: Seq<RenderCommand>,
    prepares: Seq<RenderCommand>,
    pc: RenderCommand,
    dc: RenderCommand,
    id: u32,
)
    requires
        prepares_batch(pc, id),
        forall|other: u32| draws_batch(dc, other) ==> other == id,
        drawn_are_prepared(draws, prepares),
    ensures
        drawn_are_prepared(draws.push(dc), prepares.push(pc)),
        forall|k: int, i2: u32| 0 <= k < prepares.len() && !#[trigger] draws_batch(prepares[k], i2) ==> !draws_batch(prepares.push(pc)[k], i2),
{
    let longer = draws.push(dc);
    let grown = prepares.push(pc);
    assert forall|k: int, i2: u32| 0 <= k < longer.len() && #[trigger] draws_batch(longer[k], i2)
        implies exists|j: int| 0 <= j < grown.len() && #[trigger] prepares_batch(grown[j], i2) by {
        if k == draws.len() {
            assert(longer[k] == dc);
            assert(grown[prepares.len() as int] == pc);
            assert(prepares_batch(grown[prepares.len() as int], i2));
        } else {
            assert(longer[k] == draws[k]);
            let j = choose|j: int| 0 <= j < prepares.len() && #[trigger] prepares_batch(prepares[j], i2);
            assert(grown[j] == prepares[j]);
            assert(prepares_batch(grown[j], i2));
        }
    }
}

/// Commands that are no preparations prepare no paths.
proof fn lemma_no_prepares(cmds: Seq<RenderCommand>)
    requires
        forall|k: int| 0 <= k < cmds.len() ==> !(#[trigger] cmds[k] is PrepareTiles),
    ensures
        prepared_paths(cmds) == 0,
    decreases cmds.len(),
{
    if cmds.len() > 0 {
        lemma_no_prepares(cmds.drop_last());
    }
}

/// Preparations placed before all draws precede them.
proof fn lemma_concat_order(head: Seq<RenderCommand>, prepares: Seq<RenderCommand>, draws: Seq<RenderCommand>)
    requires
        forall|k: int, id: u32| 0 <= k < head.len() ==> !#[trigger] draws_batch(head[k], id),
        forall|k: int, id: u32| 0 <= k < prepares.len() ==> !#[trigger] draws_batch(prepares[k], id),
        forall|k: int, id: u32| 0 <= k < draws.len() && #[trigger] draws_batch(draws[k], id)
            ==> exists|j: int| 0 <= j < prepares.len() && #[trigger] prepares_batch(prepares[j], id),
    ensures
        prepared_before_drawn(head + prepares + draws),
{
    let all = head + prepares + draws;
    assert forall|k: int, id: u32| 0 <= k < all.len() && #[trigger] draws_batch(all[k], id) implies exists|j: int|
        0 <= j < k && #[trigger] prepares_batch(all[j], id) by {
        if k < head.len() {
            assert(all[k] == head[k]);
        } else if k < head.len() + prepares.len() {
            assert(all[k] == prepares[k - head.len()]);
        } else {
            assert(all[k] == draws[k - head.len() - prepares.len()]);
            let j = choose|j: int| 0 <= j < prepares.len() && #[trigger] prepares_batch(prepares[j], id);
            assert(all[head.len() + j] == prepares[j]);
            assert(prepares_batch(all[head.len() + j], id));
        }
    }
}

} // verus!
