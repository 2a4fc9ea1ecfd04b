use pathfinder_tiling::blend::BlendFactor;
use pathfinder_tiling::blend::BlendMode;
use pathfinder_tiling::blend::BlendModeExt;
use pathfinder_tiling::blend::BlendOp;
use pathfinder_tiling::blend::PaintCompositeOp;
use pathfinder_tiling::builder::FillRule;
use pathfinder_tiling::gpu_data::AlphaTileCounters;
use pathfinder_tiling::gpu_data::AlphaTileId;
use pathfinder_tiling::gpu_data::Clip;
use pathfinder_tiling::scene::DisplayItem;
use pathfinder_tiling::scene::DrawPath;
use pathfinder_tiling::scene::RenderTargetId;
use pathfinder_tiling::scene::Scene;
use pathfinder_tiling::scene::SceneBuilder;
use pathfinder_tiling::tile_map::FixedRect;
use pathfinder_tiling::tile_map::Vector2I;
use pathfinder_tiling::z_buffer::DepthMetadata;
use pathfinder_tiling::builder::Occluder;
use pathfinder_tiling::z_buffer::PaintId;
use pathfinder_tiling::z_buffer::ZBuffer;

#[test]
fn alpha_tile_ids_are_distinct_and_never_invalid() {
    let mut counters = AlphaTileCounters::new();
    let mut seen = Vec::new();
    for level in [0usize, 1, 0, 1, 1, 0] {
        let id = AlphaTileId::new(&mut counters, level);
        assert!(id.is_valid());
        assert!(!seen.contains(&id.0));
        seen.push(id.0);
    }
    assert_eq!(seen[0], 0);
    assert_eq!(seen[1], 0x8000_0000);
    assert_eq!(seen[2], 1);
}

#[test]
fn last_id_of_upper_level_is_never_issued() {
    let mut counters = AlphaTileCounters::new();
    counters.next[1] = 0x7fff_fffe;
    assert!(counters.has_room(1));
    let id = AlphaTileId::new(&mut counters, 1);
    assert_eq!(id.0, 0xffff_fffe);
    assert!(!counters.has_room(1));
    assert!(counters.has_room(0));
}

#[test]
fn alpha_tile_page_and_tile_split_the_id() {
    let id = AlphaTileId(0x0003_0102);
    assert_eq!(id.page(), 3);
    assert_eq!(id.tile(), 0x0102);
    assert!(!AlphaTileId::invalid().is_valid());
    assert_eq!(AlphaTileId::invalid().0, !0);
    let clip = Clip::default();
    assert_eq!(clip.dest_tile_id, AlphaTileId(!0));
    assert_eq!(clip.src_backdrop, 0);
}

#[test]
fn blend_modes_map_to_states_and_controls() {
    let src_over = BlendMode::SrcOver.to_blend_state().unwrap();
    assert_eq!(src_over.src_rgb_factor, BlendFactor::One);
    assert_eq!(src_over.dest_alpha_factor, BlendFactor::OneMinusSrcAlpha);
    assert_eq!(src_over.op, BlendOp::Add);
    let xor = BlendMode::Xor.to_blend_state().unwrap();
    assert_eq!((xor.src_rgb_factor, xor.dest_rgb_factor), (BlendFactor::OneMinusDestAlpha, BlendFactor::OneMinusSrcAlpha));
    assert!(BlendMode::Copy.to_blend_state().is_none());
    assert!(BlendMode::Multiply.to_blend_state().is_none());
    assert!(!BlendMode::Copy.needs_readable_framebuffer());
    assert!(BlendMode::Luminosity.needs_readable_framebuffer());
    assert!(!BlendMode::Lighter.needs_readable_framebuffer());
    assert_eq!(BlendMode::Multiply.to_composite_ctrl(), 1);
    assert_eq!(BlendMode::Luminosity.to_composite_ctrl(), 0xf);
    assert_eq!(BlendMode::Clear.to_composite_ctrl(), 0);
    assert_eq!(PaintCompositeOp::SrcIn.to_combine_mode(), 1);
    assert_eq!(PaintCompositeOp::DestIn.to_combine_mode(), 2);
    assert!(BlendMode::SrcOver.occludes_backdrop());
    assert!(!BlendMode::Multiply.occludes_backdrop());
    assert!(BlendMode::DestAtop.is_destructive());
    assert!(!BlendMode::SrcOver.is_destructive());
}

fn draw_path(blend_mode: BlendMode) -> DrawPath {
    DrawPath {
        outline: vec![],
        fill_rule: FillRule::Winding,
        paint: PaintId(0),
        paint_is_opaque: true,
        filter: pathfinder_tiling::gpu_data::Filter(0),
        color_texture: None,
        blend_mode,
        clip_path: None,
    }
}

fn scene(display_list: Vec<DisplayItem>) -> Scene {
    Scene {
        paths: vec![draw_path(BlendMode::SrcOver), draw_path(BlendMode::Multiply)],
        clip_paths: vec![],
        display_list,
        view_box: FixedRect { min_x: 0, min_y: 0, max_x: 4096, max_y: 4096 },
    }
}

#[test]
fn readable_framebuffer_only_for_top_level_exotic_blends() {
    let target = RenderTargetId { scene: 0, render_target: 1 };
    let top = SceneBuilder::new(scene(vec![DisplayItem::DrawPaths { start_index: 0, end_index: 2 }]));
    assert!(top.needs_readable_framebuffer());
    let plain = SceneBuilder::new(scene(vec![DisplayItem::DrawPaths { start_index: 0, end_index: 1 }]));
    assert!(!plain.needs_readable_framebuffer());
    let nested = SceneBuilder::new(scene(vec![
        DisplayItem::PushRenderTarget(target),
        DisplayItem::DrawPaths { start_index: 0, end_index: 2 },
        DisplayItem::PopRenderTarget,
    ]));
    assert!(!nested.needs_readable_framebuffer());
    let after = SceneBuilder::new(scene(vec![
        DisplayItem::PushRenderTarget(target),
        DisplayItem::PopRenderTarget,
        DisplayItem::DrawPaths { start_index: 1, end_index: 2 },
    ]));
    assert!(after.needs_readable_framebuffer());
    assert_eq!(after.next_alpha_tile_indices.next, [0, 0]);
}

#[test]
fn z_buffer_keeps_greatest_depth() {
    let mut z = ZBuffer::new(FixedRect { min_x: 0, min_y: 0, max_x: 8192, max_y: 4096 });
    assert_eq!(z.buffer.data, vec![0, 0]);
    let occluders = [Occluder::new(Vector2I { x: 1, y: 0 })];
    z.update(&occluders, 3, DepthMetadata { paint_id: PaintId(7) });
    assert_eq!(z.buffer.data, vec![0, 3]);
    z.update(&occluders, 2, DepthMetadata { paint_id: PaintId(8) });
    assert_eq!(z.buffer.data, vec![0, 3]);
    assert_eq!(z.depth_metadata.get(3).map(|m| m.paint_id), Some(PaintId(7)));
    assert_eq!(z.depth_metadata.get(2).map(|m| m.paint_id), Some(PaintId(8)));
    assert!(z.depth_metadata.get(1).is_none());
    assert!(z.test(Vector2I { x: 0, y: 0 }, 1));
    assert!(!z.test(Vector2I { x: 1, y: 0 }, 2));
    assert!(z.test(Vector2I { x: 1, y: 0 }, 3));
    assert!(z.test(Vector2I { x: 1, y: 0 }, 4));
}
