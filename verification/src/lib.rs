//! A streaming, procedurally generated 2D tile world.
//!
//! Given a viewport (camera position and visible extent) and a seeded
//! deterministic noise field, the library maintains the minimal set of terrain
//! chunks that must be materialized for the visible region: it generates new
//! chunks on demand, rasterizes them to pixel buffers, and releases chunks
//! that scroll out of view. Configuration changes (seed, tile size, chunk
//! granularity) are handled by a coordinated full reload.

pub mod bitmap;
pub mod chunk;
pub mod chunk_position;
pub mod config;
pub mod noise;
pub mod parallel;
pub mod scheduler;
pub mod seed;
pub mod store;
pub mod tile_kind;
pub mod visible;
