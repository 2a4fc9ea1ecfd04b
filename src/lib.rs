//! Tile-based preparation of vector paths for GPU rasterization: geometric clipping,
//! per-tile decomposition of paths, pooled storage for per-frame buffers, and the
//! occlusion and backdrop logic of the tile preparation stage.
//!
//! Coordinates are integers throughout: scene coordinates are fixed point with
//! eight fractional bits (1/256 of a pixel), so that every geometric rule can be
//! stated and checked exactly.
//!
//! - `clip`: clipping of polygons, contours and path events against the clip volume,
//!   convex polygons and rectangles.
//! - `segment`: lines, quadratics and cubics, their crossings with an edge found by
//!   bisection, and the clipping of contours made of them.
//! - `tile_map`: tile rectangles and dense per-tile maps.
//! - `gpu_data`: the packed records and commands handed to the GPU stage, and the
//!   alpha tile identifiers.
//! - `blend`: blend modes and how compositing realizes them.
//! - `builder`: per-path tile maps and fills, and the batches of tile preparation.
//! - `tiler`: tiling of paths into fills, backdrops and solid tiles.
//! - `scene`: the scene as tiling reads it, and the building of a frame's commands.
//! - `z_buffer`: occlusion culling by tile depth.
//! - `allocator`: pooled storage recycled from frame to frame.
//! - `renderer`: sizing decisions and per-frame batch records of the GPU stage.
//! - `stats`: render statistics.
//! - `clock`: the build time of a frame.

pub mod allocator;
pub mod blend;
pub mod builder;
pub mod clip;
pub mod clock;
pub mod gpu_data;
pub mod renderer;
pub mod scene;
pub mod segment;
pub mod stats;
pub mod tile_map;
pub mod tiler;
pub mod z_buffer;
