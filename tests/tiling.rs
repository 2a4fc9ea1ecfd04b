use pathfinder_tiling::blend::BlendMode;
use pathfinder_tiling::builder::BuiltPath;
use pathfinder_tiling::builder::DrawTilingPathInfo;
use pathfinder_tiling::builder::FillRule;
use pathfinder_tiling::builder::LineSegmentFixed;
use pathfinder_tiling::builder::ObjectBuilder;
use pathfinder_tiling::builder::RendererGPUFeatures;
use pathfinder_tiling::builder::TilingPathInfo;
use pathfinder_tiling::builder::calculate_mask_uv;
use pathfinder_tiling::gpu_data::AlphaTileCounters;
use pathfinder_tiling::gpu_data::PathIndex;
use pathfinder_tiling::gpu_data::PrepareTilesBatch;
use pathfinder_tiling::gpu_data::PrepareTilesModalInfo;
use pathfinder_tiling::gpu_data::TileBatchId;
use pathfinder_tiling::scene::Contour;
use pathfinder_tiling::tile_map::FixedRect;
use pathfinder_tiling::tile_map::TileRect;
use pathfinder_tiling::tile_map::Vector2I;
use pathfinder_tiling::tile_map::round_rect_out_to_tile_bounds;
use pathfinder_tiling::tiler::propagate_backdrops;
use pathfinder_tiling::tiler::tile_path;

const PX: i32 = 256;

fn rect_px(x0: i32, y0: i32, x1: i32, y1: i32) -> FixedRect {
    FixedRect { min_x: x0 * PX, min_y: y0 * PX, max_x: x1 * PX, max_y: y1 * PX }
}

fn rect_contour(x0: i32, y0: i32, x1: i32, y1: i32) -> Vec<Contour> {
    vec![Contour {
        points: vec![
            Vector2I { x: x0 * PX, y: y0 * PX },
            Vector2I { x: x1 * PX, y: y0 * PX },
            Vector2I { x: x1 * PX, y: y1 * PX },
            Vector2I { x: x0 * PX, y: y1 * PX },
        ],
    }]
}

fn opaque_draw(blend_mode: BlendMode) -> TilingPathInfo {
    TilingPathInfo::Draw(DrawTilingPathInfo {
        paint_id: 3,
        paint_is_opaque: true,
        blend_mode,
        built_clip_path: None,
        fill_rule: FillRule::Winding,
    })
}

#[test]
fn rectangle_covering_single_tile_view_box_is_one_solid_tile() {
    let mut counters = AlphaTileCounters::new();
    let view_box = rect_px(0, 0, 16, 16);
    let info = opaque_draw(BlendMode::SrcOver);
    let b = tile_path(&mut counters, 0, &rect_contour(0, 0, 16, 16), FillRule::Winding, view_box, &info);
    assert_eq!(b.built_path.tiles.data.len(), 1);
    assert_eq!(b.fills.len(), 0);
    let tile = b.built_path.tiles.data[0];
    assert!(!tile.alpha_tile_id.is_valid());
    assert_eq!(tile.backdrop, 1);
    let occluders = b.built_path.occluders.as_ref().unwrap();
    assert_eq!(occluders.len(), 1);
    assert_eq!(occluders[0].coords, Vector2I { x: 0, y: 0 });
    assert_eq!(counters.next[0], 0);
}

#[test]
fn rectangle_straddling_two_tiles_fills_both() {
    let mut counters = AlphaTileCounters::new();
    let view_box = rect_px(0, 0, 32, 16);
    let info = opaque_draw(BlendMode::SrcOver);
    let b = tile_path(&mut counters, 0, &rect_contour(8, 0, 24, 16), FillRule::Winding, view_box, &info);
    assert_eq!(b.built_path.tiles.data.len(), 2);
    assert_eq!(b.built_path.tiles.rect, TileRect { origin_x: 0, origin_y: 0, width: 2, height: 1 });
    assert!(b.fills.len() >= 2);
    for index in 0..2 {
        let id = b.built_path.tiles.data[index].alpha_tile_id;
        assert!(id.is_valid());
        assert!(b.fills.iter().any(|f| f.alpha_tile_index == id.0));
    }
    for fill in &b.fills {
        let s = fill.line_segment;
        for v in [s.from_x, s.from_y, s.to_x, s.to_y] {
            assert!(v <= 16 * 256 - 1);
        }
    }
    assert!(b.built_path.occluders.as_ref().unwrap().is_empty());
}

#[test]
fn rectangle_strictly_inside_a_tile_needs_fills() {
    let mut counters = AlphaTileCounters::new();
    let view_box = rect_px(0, 0, 16, 16);
    let info = opaque_draw(BlendMode::SrcOver);
    let b = tile_path(&mut counters, 0, &rect_contour(4, 4, 12, 12), FillRule::Winding, view_box, &info);
    assert_eq!(b.built_path.tiles.data.len(), 1);
    assert!(!b.fills.is_empty());
    assert!(b.built_path.tiles.data[0].alpha_tile_id.is_valid());
    assert!(b.built_path.occluders.as_ref().unwrap().is_empty());
}

#[test]
fn destructive_blend_mode_spans_view_box() {
    let view_box = rect_px(0, 0, 64, 64);
    let path_bounds = rect_px(4, 4, 12, 12);
    let info = opaque_draw(BlendMode::Multiply);
    let path = BuiltPath::new(7, path_bounds, view_box, FillRule::Winding, &info);
    assert_eq!(path.tiles.rect, TileRect { origin_x: 0, origin_y: 0, width: 4, height: 4 });
    assert_eq!(path.tiles.data.len(), 16);
    let copy = BuiltPath::new(7, path_bounds, view_box, FillRule::Winding, &opaque_draw(BlendMode::Copy));
    assert_eq!(copy.tiles.data.len(), 1);
    let normal = BuiltPath::new(7, path_bounds, view_box, FillRule::Winding, &opaque_draw(BlendMode::SrcOver));
    assert_eq!(normal.tiles.rect, TileRect { origin_x: 0, origin_y: 0, width: 1, height: 1 });
}

#[test]
fn readable_framebuffer_path_tile_map_spans_view_box_when_tiled() {
    let mut counters = AlphaTileCounters::new();
    let view_box = rect_px(0, 0, 64, 64);
    let info = opaque_draw(BlendMode::Screen);
    let b = tile_path(&mut counters, 0, &rect_contour(4, 4, 12, 12), FillRule::Winding, view_box, &info);
    assert_eq!(b.built_path.tiles.data.len(), 16);
    assert!(b.built_path.occluders.is_none());
}

#[test]
fn built_path_new_records_tile_fields() {
    let info = TilingPathInfo::Draw(DrawTilingPathInfo {
        paint_id: 9,
        paint_is_opaque: false,
        blend_mode: BlendMode::SrcOver,
        built_clip_path: Some(2),
        fill_rule: FillRule::EvenOdd,
    });
    let path = BuiltPath::new(5, rect_px(-20, 0, 20, 10), rect_px(-100, -100, 100, 100), FillRule::EvenOdd, &info);
    assert_eq!(path.tiles.rect, TileRect { origin_x: -2, origin_y: 0, width: 4, height: 1 });
    let t = path.tiles.data[1];
    assert_eq!((t.tile_x, t.tile_y, t.path_id, t.color, t.backdrop, t.ctrl), (-1, 0, 5, 9, 0, 2));
    assert!(!t.alpha_tile_id.is_valid());
    assert_eq!(path.clip_tiles.as_ref().unwrap().data.len(), 4);
    assert!(path.occluders.is_none());
    assert_eq!(path.data.backdrops, vec![0, 0, 0, 0]);
    let clip = BuiltPath::new(5, rect_px(0, 0, 10, 10), rect_px(0, 0, 10, 10), FillRule::Winding, &TilingPathInfo::Clip);
    assert_eq!(clip.tiles.data[0].ctrl, 0);
    assert!(clip.occluders.is_some());
    assert!(clip.clip_tiles.is_none());
}

#[test]
fn add_fill_clamps_into_tile_and_culls() {
    let mut counters = AlphaTileCounters::new();
    let info = opaque_draw(BlendMode::SrcOver);
    let mut b = ObjectBuilder::new(0, rect_px(0, 0, 32, 16), rect_px(0, 0, 32, 16), FillRule::Winding, &info);
    let seg = LineSegmentFixed { from_x: -100, from_y: 8 * PX, to_x: 20 * PX, to_y: 2 * PX };
    b.add_fill(&mut counters, seg, Vector2I { x: 0, y: 0 });
    assert_eq!(b.fills.len(), 1);
    let s = b.fills[0].line_segment;
    assert_eq!((s.from_x, s.from_y, s.to_x, s.to_y), (0, 2048, 4095, 512));
    assert_eq!(b.fills[0].alpha_tile_index, 0);
    b.add_fill(&mut counters, seg, Vector2I { x: 1, y: 0 });
    assert_eq!(b.fills[1].alpha_tile_index, 1);
    let s = b.fills[1].line_segment;
    assert_eq!((s.from_x, s.to_x), (0, 1024));
    b.add_fill(&mut counters, seg, Vector2I { x: 0, y: 0 });
    assert_eq!(b.fills[2].alpha_tile_index, 0);
    assert_eq!(counters.next[0], 2);
    let vertical = LineSegmentFixed { from_x: 5 * PX, from_y: 0, to_x: 5 * PX, to_y: 10 * PX };
    b.add_fill(&mut counters, vertical, Vector2I { x: 0, y: 0 });
    b.add_fill(&mut counters, seg, Vector2I { x: 3, y: 0 });
    assert_eq!(b.fills.len(), 3);
}

#[test]
fn backdrops_sum_down_columns() {
    let info = opaque_draw(BlendMode::SrcOver);
    let mut b = ObjectBuilder::new(0, rect_px(0, 0, 32, 48), rect_px(0, 0, 32, 48), FillRule::Winding, &info);
    b.adjust_alpha_tile_backdrop(Vector2I { x: 1, y: -1 }, 2);
    b.adjust_alpha_tile_backdrop(Vector2I { x: 1, y: 1 }, -1);
    b.adjust_alpha_tile_backdrop(Vector2I { x: 0, y: 2 }, 1);
    b.adjust_alpha_tile_backdrop(Vector2I { x: 5, y: 0 }, 1);
    b.adjust_alpha_tile_backdrop(Vector2I { x: 0, y: 3 }, 1);
    assert_eq!(b.built_path.data.backdrops, vec![0, 2]);
    propagate_backdrops(&mut b.built_path);
    let backdrops: Vec<i8> = b.built_path.tiles.data.iter().map(|t| t.backdrop).collect();
    assert_eq!(backdrops, vec![0, 2, 0, 1, 1, 1]);
}

#[test]
fn even_odd_double_winding_is_not_solid() {
    let mut counters = AlphaTileCounters::new();
    let view_box = rect_px(0, 0, 16, 16);
    let mut outline = rect_contour(0, 0, 16, 16);
    outline.extend(rect_contour(0, 0, 16, 16));
    let info = TilingPathInfo::Clip;
    let even_odd = tile_path(&mut counters, 0, &outline, FillRule::EvenOdd, view_box, &info);
    assert_eq!(even_odd.built_path.tiles.data[0].backdrop, 2);
    assert!(even_odd.built_path.occluders.as_ref().unwrap().is_empty());
    let winding = tile_path(&mut counters, 0, &outline, FillRule::Winding, view_box, &info);
    assert_eq!(winding.built_path.occluders.as_ref().unwrap().len(), 1);
}

#[test]
fn overlapping_opaque_paths_cull_the_earlier() {
    let mut counters = AlphaTileCounters::new();
    let view_box = rect_px(0, 0, 16, 16);
    let info = opaque_draw(BlendMode::SrcOver);
    let first = tile_path(&mut counters, 0, &rect_contour(0, 0, 16, 16), FillRule::Winding, view_box, &info);
    let second = tile_path(&mut counters, 1, &rect_contour(0, 0, 16, 16), FillRule::Winding, view_box, &info);
    let features = RendererGPUFeatures { prepare_tiles_on_gpu: false };
    let scene_rect = round_rect_out_to_tile_bounds(view_box);
    let mut batch = PrepareTilesBatch::new(TileBatchId(1), scene_rect, features);
    assert_eq!(batch.push(&first.built_path, None, features), PathIndex(0));
    assert_eq!(batch.push(&second.built_path, None, features), PathIndex(1));
    assert_eq!(batch.tiles.len(), 2);
    match &batch.modal {
        PrepareTilesModalInfo::CPU(cpu) => {
            assert_eq!(cpu.z_buffer.data, vec![1]);
            assert!(cpu.is_occluded(Vector2I { x: 0, y: 0 }, PathIndex(0)));
            assert!(!cpu.is_occluded(Vector2I { x: 0, y: 0 }, PathIndex(1)));
        }
        PrepareTilesModalInfo::GPU(_) => panic!("expected CPU preparation"),
    }
}

#[test]
fn translucent_paths_do_not_write_z() {
    let mut counters = AlphaTileCounters::new();
    let view_box = rect_px(0, 0, 16, 16);
    let info = TilingPathInfo::Draw(DrawTilingPathInfo {
        paint_id: 0,
        paint_is_opaque: false,
        blend_mode: BlendMode::SrcOver,
        built_clip_path: None,
        fill_rule: FillRule::Winding,
    });
    let path = tile_path(&mut counters, 0, &rect_contour(0, 0, 16, 16), FillRule::Winding, view_box, &info);
    let features = RendererGPUFeatures { prepare_tiles_on_gpu: false };
    let mut batch = PrepareTilesBatch::new(TileBatchId(1), round_rect_out_to_tile_bounds(view_box), features);
    batch.push(&path.built_path, None, features);
    batch.push(&path.built_path, None, features);
    match &batch.modal {
        PrepareTilesModalInfo::CPU(cpu) => assert_eq!(cpu.z_buffer.data, vec![0]),
        PrepareTilesModalInfo::GPU(_) => panic!("expected CPU preparation"),
    }
}

#[test]
fn gpu_batch_records_propagate_metadata_and_clips() {
    let view_box = rect_px(0, 0, 32, 16);
    let info = TilingPathInfo::Draw(DrawTilingPathInfo {
        paint_id: 0,
        paint_is_opaque: true,
        blend_mode: BlendMode::SrcOver,
        built_clip_path: Some(0),
        fill_rule: FillRule::Winding,
    });
    let path = BuiltPath::new(0, rect_px(0, 0, 32, 16), view_box, FillRule::Winding, &info);
    let features = RendererGPUFeatures { prepare_tiles_on_gpu: true };
    let mut batch = PrepareTilesBatch::new(TileBatchId(4), round_rect_out_to_tile_bounds(view_box), features);
    batch.push(&path, None, features);
    let index = batch.push(&path, Some(PathIndex(0)), features);
    assert_eq!(index, PathIndex(1));
    match &batch.modal {
        PrepareTilesModalInfo::GPU(gpu) => {
            assert_eq!(gpu.backdrops.len(), 4);
            assert_eq!(gpu.propagate_metadata.len(), 2);
            assert_eq!(gpu.propagate_metadata[1].tile_offset, 2);
            assert_eq!(gpu.propagate_metadata[1].backdrops_offset, 2);
            assert_eq!(gpu.propagate_metadata[1].z_write, 1);
            assert_eq!(gpu.propagate_metadata[0].clip_path, PathIndex(!0));
            assert_eq!(gpu.propagate_metadata[1].clip_path, PathIndex(0));
        }
        PrepareTilesModalInfo::CPU(_) => panic!("expected GPU preparation"),
    }
    let clipped = batch.clipped_path_info.as_ref().unwrap();
    assert_eq!(clipped.clipped_paths, vec![PathIndex(1)]);
    assert_eq!(clipped.max_clipped_tile_count, 2);
    assert!(clipped.clips.is_none());
}

#[test]
fn tile_bounds_round_outward() {
    let r = round_rect_out_to_tile_bounds(FixedRect { min_x: -1, min_y: 4096, max_x: 4097, max_y: 8192 });
    assert_eq!(r, TileRect { origin_x: -1, origin_y: 1, width: 3, height: 1 });
    let empty = round_rect_out_to_tile_bounds(FixedRect { min_x: 100, min_y: 100, max_x: 100, max_y: 100 });
    assert_eq!(empty.width, 1);
}

#[test]
fn mask_uv_wraps_at_atlas_width() {
    assert_eq!(calculate_mask_uv(0), Vector2I { x: 0, y: 0 });
    assert_eq!(calculate_mask_uv(257), Vector2I { x: 1, y: 1 });
    assert_eq!(calculate_mask_uv(65535), Vector2I { x: 255, y: 255 });
}

use pathfinder_tiling::tiler::outline_bounds_in;

#[test]
fn outline_bounds_are_the_points_in_the_view_box() {
    let view_box = rect_px(0, 0, 64, 64);
    let mut outline = rect_contour(4, 8, 20, 30);
    outline.push(Contour { points: vec![Vector2I { x: 100 * PX, y: 100 * PX }] });
    assert_eq!(outline_bounds_in(&outline, view_box), rect_px(4, 8, 20, 30));
    let far = vec![Contour { points: vec![Vector2I { x: -PX, y: -PX }] }];
    assert_eq!(outline_bounds_in(&far, view_box), rect_px(0, 0, 0, 0));
}

#[test]
fn segment_inside_one_tile_gives_exactly_its_fill() {
    let mut counters = AlphaTileCounters::new();
    let info = opaque_draw(BlendMode::SrcOver);
    let mut b = ObjectBuilder::new(0, rect_px(0, 0, 32, 32), rect_px(0, 0, 32, 32), FillRule::Winding, &info);
    let seg = LineSegmentFixed { from_x: 20 * PX, from_y: 18 * PX, to_x: 28 * PX, to_y: 30 * PX };
    pathfinder_tiling::tiler::process_line_segment(&mut b, &mut counters, seg);
    assert_eq!(b.fills.len(), 1);
    let s = b.fills[0].line_segment;
    assert_eq!((s.from_x, s.from_y, s.to_x, s.to_y), (4 * PX as u16, 2 * PX as u16, 12 * PX as u16, 14 * PX as u16));
}
