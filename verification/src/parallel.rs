//! The parallel generation harness.
//!
//! Each chunk position of a tick's spawn batch is processed independently:
//! sample the noise field, classify into a chunk, rasterize to a bitmap.
//! The noise field is read-only and safe to share; the whole batch is joined
//! before any shared state is touched, so results are applied sequentially
//! by the caller.

use vstd::prelude::*;

use rayon::iter::{IntoParallelRefIterator, ParallelIterator};

use crate::bitmap::Bitmap;
use crate::chunk::{chunk_grid_spec, raster_pixel_spec, Chunk, ChunkBorderState};
use crate::chunk_position::ChunkPosition;
use crate::config::{MapConfig, MAX_SEED};
use crate::noise::NoiseField;

verus! {

/// What generation yields for one position: the chunk's grid is the
/// classified noise grid for the position, and the bitmap is the chunk's
/// rasterization under the given border state.
pub open spec fn package_wf(
    package: (ChunkPosition, Chunk, Bitmap),
    position: ChunkPosition,
    field: NoiseField,
    config: MapConfig,
    borders: ChunkBorderState,
) -> bool {
    &&& package.0 == position
    &&& package.1.wf(config.chunk_tile_count)
    &&& package.1.view_grid() == chunk_grid_spec(
        field.seed,
        field.chunk_tile_count,
        position.x,
        position.y,
    )
    &&& package.2.wf()
    &&& package.2.width as int == config.chunk_size_spec()
    &&& package.2.height as int == config.chunk_size_spec()
    &&& forall|px: int, py: int|
        0 <= px < config.chunk_size_spec() && 0 <= py < config.chunk_size_spec()
            ==> #[trigger] package.2.pixel_spec(px, py) == raster_pixel_spec(
            package.1.view_grid(),
            config.chunk_tile_count as int,
            config.tile_size as int,
            borders,
            px,
            py,
        )
}

/// Generates and rasterizes the chunk for one position.
pub fn generate_package(
    position: ChunkPosition,
    noisemap: &NoiseField,
    config: &MapConfig,
    borders: ChunkBorderState,
) -> (package: (ChunkPosition, Chunk, Bitmap))
    requires
        config.valid(),
        noisemap.chunk_tile_count == config.chunk_tile_count,
        noisemap.seed <= MAX_SEED,
    ensures
        package_wf(package, position, *noisemap, *config, borders),
{
    let chunk = Chunk::new(position, noisemap, config);
    let bitmap = chunk.generate_texture_image(config, borders);
    (position, chunk, bitmap)
}

/// Relies on rayon's `par_iter`, `ParallelIterator::map` and `collect` into
/// a `Vec`: collecting a mapped indexed parallel iterator joins the whole
/// batch and yields one element per input, in input order, each the
/// closure's result for the corresponding input. The closure only calls
/// `generate_package`.
#[verifier::external_body]
pub(crate) fn generate_batch(
    positions: &Vec<ChunkPosition>,
    noisemap: &NoiseField,
    config: &MapConfig,
    borders: ChunkBorderState,
) -> (packages: Vec<(ChunkPosition, Chunk, Bitmap)>)
    requires
        config.valid(),
        noisemap.chunk_tile_count == config.chunk_tile_count,
        noisemap.seed <= MAX_SEED,
    ensures
        packages@.len() == positions@.len(),
        forall|i: int|
            0 <= i < positions@.len() ==> #[trigger] package_wf(
                packages@[i],
                positions@[i],
                *noisemap,
                *config,
                borders,
            ),
{
    positions
        .par_iter()
        .map(|position| generate_package(*position, noisemap, config, borders))
        .collect()
}

} // verus!
