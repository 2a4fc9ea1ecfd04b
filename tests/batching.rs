use pathfinder_tiling::blend::BlendMode;
use pathfinder_tiling::builder::BuiltDrawPath;
use pathfinder_tiling::builder::BuiltPath;
use pathfinder_tiling::builder::DrawTilingPathInfo;
use pathfinder_tiling::builder::FillRule;
use pathfinder_tiling::builder::RendererGPUFeatures;
use pathfinder_tiling::builder::TilingPathInfo;
use pathfinder_tiling::gpu_data::Filter;
use pathfinder_tiling::gpu_data::PathIndex;
use pathfinder_tiling::gpu_data::RenderCommand;
use pathfinder_tiling::scene::DisplayItem;
use pathfinder_tiling::scene::RenderTargetId;
use pathfinder_tiling::scene::Scene;
use pathfinder_tiling::scene::SceneBuilder;
use pathfinder_tiling::tile_map::FixedRect;

fn view_box() -> FixedRect {
    FixedRect { min_x: 0, min_y: 0, max_x: 8192, max_y: 4096 }
}

fn built(blend_mode: BlendMode, clip: Option<u32>) -> BuiltDrawPath {
    let info = TilingPathInfo::Draw(DrawTilingPathInfo {
        paint_id: 0,
        paint_is_opaque: false,
        blend_mode,
        built_clip_path: clip,
        fill_rule: FillRule::Winding,
    });
    BuiltDrawPath {
        path: BuiltPath::new(0, view_box(), view_box(), FillRule::Winding, &info),
        clip_path_id: clip.map(PathIndex),
        blend_mode,
        filter: Filter(0),
        color_texture: None,
        mask_0_fill_rule: FillRule::Winding,
    }
}

fn builder(display_list: Vec<DisplayItem>) -> SceneBuilder {
    SceneBuilder::new(Scene { paths: vec![], clip_paths: vec![], display_list, view_box: view_box() })
}

fn describe(commands: &[RenderCommand]) -> Vec<String> {
    commands
        .iter()
        .map(|c| match c {
            RenderCommand::PrepareTiles(b) => format!("prepare {} x{}", b.batch_id.0, b.path_count),
            RenderCommand::DrawTiles(b) => format!("draw {}", b.tile_batch_id.0),
            RenderCommand::PushRenderTarget(_) => "push".to_string(),
            RenderCommand::PopRenderTarget => "pop".to_string(),
            RenderCommand::AddFills(_) => "fills".to_string(),
            RenderCommand::FlushFills => "flush".to_string(),
            RenderCommand::Start { .. } => "start".to_string(),
            RenderCommand::BeginTileDrawing => "begin".to_string(),
            RenderCommand::Finish { .. } => "finish".to_string(),
        })
        .collect()
}

#[test]
fn consecutive_paths_with_equal_state_share_a_batch() {
    let paths = vec![built(BlendMode::SrcOver, None), built(BlendMode::SrcOver, None), built(BlendMode::Multiply, None)];
    let b = builder(vec![DisplayItem::DrawPaths { start_index: 0, end_index: 3 }]);
    let features = RendererGPUFeatures { prepare_tiles_on_gpu: false };
    let commands = b.build_tile_batches(&paths, &vec![], features);
    assert_eq!(describe(&commands), vec!["prepare 1 x2", "prepare 2 x1", "draw 1", "draw 2"]);
}

#[test]
fn clip_batch_is_prepared_first_and_once() {
    let clip_info = TilingPathInfo::Clip;
    let clip = BuiltPath::new(0, view_box(), view_box(), FillRule::Winding, &clip_info);
    let paths = vec![built(BlendMode::SrcOver, Some(0)), built(BlendMode::SrcOver, Some(0))];
    let target = RenderTargetId { scene: 0, render_target: 0 };
    let b = builder(vec![
        DisplayItem::PushRenderTarget(target),
        DisplayItem::DrawPaths { start_index: 0, end_index: 1 },
        DisplayItem::PopRenderTarget,
        DisplayItem::DrawPaths { start_index: 1, end_index: 2 },
    ]);
    let features = RendererGPUFeatures { prepare_tiles_on_gpu: false };
    let commands = b.build_tile_batches(&paths, &vec![clip], features);
    assert_eq!(
        describe(&commands),
        vec!["prepare 0 x1", "prepare 1 x1", "prepare 2 x1", "push", "draw 1", "pop", "draw 2"]
    );
    match &commands[1] {
        RenderCommand::PrepareTiles(batch) => {
            let info = batch.clipped_path_info.as_ref().unwrap();
            assert_eq!(info.clipped_paths, vec![PathIndex(0)]);
            assert_eq!(info.clips.as_ref().unwrap().len(), 2);
        }
        _ => panic!("expected a preparation"),
    }
}

use pathfinder_tiling::scene::ClipPath;
use pathfinder_tiling::scene::Contour;
use pathfinder_tiling::scene::DrawPath;
use pathfinder_tiling::tile_map::Vector2I;
use pathfinder_tiling::z_buffer::PaintId;

fn square(x0: i32, y0: i32, x1: i32, y1: i32) -> Vec<Contour> {
    vec![Contour {
        points: vec![
            Vector2I { x: x0, y: y0 },
            Vector2I { x: x1, y: y0 },
            Vector2I { x: x1, y: y1 },
            Vector2I { x: x0, y: y1 },
        ],
    }]
}

fn scene_path(outline: Vec<Contour>, blend_mode: BlendMode, clip_path: Option<u32>) -> DrawPath {
    DrawPath {
        outline,
        fill_rule: FillRule::Winding,
        paint: PaintId(1),
        paint_is_opaque: true,
        filter: Filter(0),
        color_texture: None,
        blend_mode,
        clip_path,
    }
}

#[test]
fn whole_scene_builds_in_order() {
    let scene = Scene {
        paths: vec![
            scene_path(square(0, 0, 4096, 4096), BlendMode::SrcOver, None),
            scene_path(square(1024, 1024, 6000, 3000), BlendMode::Multiply, Some(0)),
        ],
        clip_paths: vec![ClipPath { outline: square(0, 0, 8192, 4096), fill_rule: FillRule::Winding }],
        display_list: vec![DisplayItem::DrawPaths { start_index: 0, end_index: 2 }],
        view_box: view_box(),
    };
    let mut b = SceneBuilder::new(scene);
    let features = RendererGPUFeatures { prepare_tiles_on_gpu: false };
    let commands = b.build(features);
    match &commands[0] {
        RenderCommand::Start { path_count, needs_readable_framebuffer } => {
            assert_eq!(*path_count, 3);
            assert!(*needs_readable_framebuffer);
        }
        _ => panic!("expected the start of a frame"),
    }
    let names = describe(&commands[1..]);
    assert_eq!(names.iter().filter(|n| *n == "fills").count(), 1);
    let flush = names.iter().position(|n| n == "flush").unwrap();
    assert_eq!(&names[flush + 1..], &["prepare 0 x1", "prepare 1 x1", "prepare 2 x1", "draw 1", "draw 2", "finish"]);
    match &commands[flush + 1 + 3] {
        RenderCommand::PrepareTiles(batch) => {
            let clips = batch.clipped_path_info.as_ref().unwrap().clips.as_ref().unwrap();
            assert_eq!(clips.len(), 2);
            for clip in clips {
                assert_eq!(clip.src_backdrop, 1);
                assert!(!clip.src_tile_id.is_valid());
            }
        }
        _ => panic!("expected the clipped batch"),
    }
    assert!(b.next_alpha_tile_indices.next[0] > 0);
}
