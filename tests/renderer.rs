use pathfinder_tiling::allocator::StorageID;
use pathfinder_tiling::renderer::FrameBatches;
use pathfinder_tiling::renderer::TileBatchInfo;
use pathfinder_tiling::renderer::next_power_of_two;
use pathfinder_tiling::renderer::pixel_size_to_tile_size;
use pathfinder_tiling::renderer::quad_vertex_indices;
use pathfinder_tiling::stats::RenderStats;
use pathfinder_tiling::stats::RenderTime;
use pathfinder_tiling::tile_map::Vector2I;

#[test]
fn tile_size_rounds_up() {
    assert_eq!(pixel_size_to_tile_size(Vector2I { x: 800, y: 601 }), Vector2I { x: 50, y: 38 });
    assert_eq!(pixel_size_to_tile_size(Vector2I { x: 0, y: 1 }), Vector2I { x: 0, y: 1 });
}

#[test]
fn powers_of_two() {
    assert_eq!(next_power_of_two(0), 1);
    assert_eq!(next_power_of_two(1), 1);
    assert_eq!(next_power_of_two(5), 8);
    assert_eq!(next_power_of_two(1024), 1024);
    assert_eq!(next_power_of_two(1025), 2048);
}

#[test]
fn quad_indices_form_two_triangles_per_quad() {
    assert_eq!(quad_vertex_indices(2), vec![0, 1, 2, 1, 3, 2, 4, 5, 6, 5, 7, 6]);
    assert!(quad_vertex_indices(0).is_empty());
}

#[test]
fn frame_batches_remember_prepared_batches_until_frame_end() {
    let info = TileBatchInfo {
        tile_count: 12,
        tile_vertex_storage_id: StorageID { bucket: 1, index: 0 },
        propagate_metadata_storage_id: None,
    };
    let mut batches = FrameBatches::new();
    assert!(batches.prepared_batch(3).is_none());
    batches.record_prepared(3, info);
    assert_eq!(batches.prepared_batch(3), Some(info));
    assert!(batches.prepared_batch(2).is_none());
    batches.end_frame();
    assert!(batches.prepared_batch(3).is_none());
}

#[test]
fn stats_sum_and_average() {
    let a = RenderStats { path_count: 3, fill_count: 10, alpha_tile_count: 4, solid_tile_count: 1, cpu_build_time: 1000 };
    let b = RenderStats { path_count: 5, fill_count: 0, alpha_tile_count: 2, solid_tile_count: 2, cpu_build_time: 3001 };
    let sum = a.add(b);
    assert_eq!(sum, RenderStats { path_count: 8, fill_count: 10, alpha_tile_count: 6, solid_tile_count: 3, cpu_build_time: 4001 });
    assert_eq!(sum.div(2), RenderStats { path_count: 4, fill_count: 5, alpha_tile_count: 3, solid_tile_count: 1, cpu_build_time: 2000 });
    let t = RenderTime::default().add(RenderTime { bin_time: 9, fill_time: 6, propagate_time: 3, tile_time: 1 });
    assert_eq!(t.div(3), RenderTime { bin_time: 3, fill_time: 2, propagate_time: 1, tile_time: 0 });
}


use pathfinder_tiling::blend::combiner_ctrl_word;
use pathfinder_tiling::blend::BlendMode;
use pathfinder_tiling::renderer::alpha_tile_pages_needed;
use pathfinder_tiling::renderer::reallocate_alpha_tile_pages_if_necessary;

#[test]
fn combiner_control_word_packs_three_fields() {
    assert_eq!(combiner_ctrl_word(0, 0, BlendMode::SrcOver), 0);
    assert_eq!(combiner_ctrl_word(1, 3, BlendMode::Multiply), (1 << 6) | (1 << 8) | (3 << 4));
    assert_eq!(combiner_ctrl_word(2, 0, BlendMode::Luminosity), (2 << 6) | (0xf << 8));
}

#[test]
fn alpha_atlas_grows_only_when_needed() {
    assert_eq!(alpha_tile_pages_needed(0), 0);
    assert_eq!(alpha_tile_pages_needed(1), 1);
    assert_eq!(alpha_tile_pages_needed(0x10000), 1);
    assert_eq!(alpha_tile_pages_needed(0x10001), 2);
    assert!(reallocate_alpha_tile_pages_if_necessary(3, 3, true, true).is_none());
    let grown = reallocate_alpha_tile_pages_if_necessary(1, 3, true, true).unwrap();
    assert_eq!(grown.page_count, 3);
    assert_eq!((grown.size.x, grown.size.y), (4096, 3072));
    assert!(grown.copy_existing);
    assert!(!reallocate_alpha_tile_pages_if_necessary(0, 1, true, false).unwrap().copy_existing);
}

use pathfinder_tiling::gpu_data::Fill;
use pathfinder_tiling::gpu_data::LineSegmentU16;
use pathfinder_tiling::renderer::link_fills;

#[test]
fn fills_of_a_tile_are_linked_newest_first() {
    let seg = LineSegmentU16 { from_x: 1, from_y: 2, to_x: 3, to_y: 4 };
    let mut fills: Vec<Fill> = [5u32, 2, 5, 5].iter().map(|&t| Fill { line_segment: seg, alpha_tile_index: t }).collect();
    let (map, first, last) = link_fills(&mut fills);
    let links: Vec<u32> = fills.iter().map(|f| f.alpha_tile_index).collect();
    assert_eq!(links, vec![!0, !0, 0, 2]);
    assert_eq!(map.len(), 6);
    assert_eq!(map[5].next_fill, 3);
    assert_eq!(map[2].next_fill, 1);
    assert_eq!(map[0].next_fill, !0);
    assert_eq!((first, last), (2, 5));
}
