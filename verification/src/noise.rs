//! A seeded, deterministic 2D noise sampler.
//!
//! For any chunk position the field yields a square grid of continuous
//! values, a pure function of the seed, the grid size, the sampling step and
//! the position. Sampling goes through the `worldgen` crate's Perlin noise;
//! the samples cross into the library as fixed-point values in millionths.

use vstd::prelude::*;

use worldgen::noise::perlin::PerlinNoise;
use worldgen::noisemap::{NoiseMap, NoiseMapGenerator, NoiseMapGeneratorBase, Seed, Size, Step};

use crate::chunk_position::ChunkPosition;
use crate::config::{MapConfig, MAX_SEED};
use crate::tile_kind::NoiseValue;

verus! {

/// The view of a grid of rows as a sequence of sequences.
pub open spec fn rows_view<T>(rows: Seq<Vec<T>>) -> Seq<Seq<T>> {
    rows.map_values(|row: Vec<T>| row@)
}

/// The noise grid that a field with the given seed and tile count yields at
/// a chunk coordinate: `count` rows of `count` fixed-point samples. The grid
/// is a pure function of these arguments alone.
pub uninterp spec fn noise_grid_of(seed: u64, count: u32, x: i32, y: i32) -> Seq<Seq<NoiseValue>>;

/// Relies on worldgen's `NoiseMap::<PerlinNoise>::generate_chunk`: with a
/// fixed seed, size, step and default Perlin parameters the grid is a pure
/// function of the chunk coordinates, laid out as `size` rows of `size`
/// values. The generator offsets the seed by each octave index — eight
/// octaves by default — so the seed must leave that headroom below the
/// 64-bit limit, or the offset addition would overflow. The map is scaled
/// by a million through worldgen's `ScaledNoiseMap`, so truncating each
/// sample yields fixed-point millionths. The sampling step of a hundredth
/// is assembled from `Step::default()`, whose components are zero.
#[verifier::external_body]
fn sample_noise_grid(seed: u64, count: u32, x: i32, y: i32) -> (grid: Vec<Vec<NoiseValue>>)
    requires
        seed <= MAX_SEED,
    ensures
        rows_view(grid@) == noise_grid_of(seed, count, x, y),
        grid@.len() == count as nat,
        forall|i: int| 0 <= i < grid@.len() ==> #[trigger] grid@[i]@.len() == count as nat,
{
    let one = Step::default().x.exp();
    let two = one + one;
    let ten = two * two * two + two;
    let hundredth = one / (ten * ten);
    let field = NoiseMap::new(PerlinNoise::new())
        .set(Seed::of_value(seed))
        .set(Size::of(count as i64, count as i64))
        .set(Step::of(hundredth, hundredth)) * 1000000;
    field
        .generate_chunk(x as i64, y as i64)
        .into_iter()
        .map(|row| row.into_iter().map(|v| v as i64).collect())
        .collect()
}

/// A seeded deterministic sampler of square noise grids. Immutable for its
/// lifetime; reconfiguration replaces the field wholesale.
pub struct NoiseField {
    /// Seed that every sample depends on; at most `MAX_SEED`.
    pub seed: u64,
    /// Side length, in tiles, of every grid the field yields.
    pub chunk_tile_count: u32,
}

impl NoiseField {
    /// Whether the field was derived from the given configuration.
    pub open spec fn matches(self, config: MapConfig) -> bool {
        &&& self.seed == config.seed
        &&& self.chunk_tile_count == config.chunk_tile_count
    }

    /// Derives a fresh field from a configuration.
    pub fn new(config: &MapConfig) -> (field: NoiseField)
        requires
            config.valid(),
        ensures
            field.matches(*config),
            field.chunk_tile_count >= 1,
            field.seed <= MAX_SEED,
    {
        NoiseField { seed: config.seed, chunk_tile_count: config.chunk_tile_count }
    }

    /// Samples the square grid of noise values for one chunk position. The
    /// same field and position always yield the same grid.
    pub fn sample_chunk(&self, position: ChunkPosition) -> (grid: Vec<Vec<NoiseValue>>)
        requires
            self.seed <= MAX_SEED,
        ensures
            rows_view(grid@) == noise_grid_of(self.seed, self.chunk_tile_count, position.x, position.y),
            grid@.len() == self.chunk_tile_count as nat,
            forall|i: int| 0 <= i < grid@.len() ==> #[trigger] grid@[i]@.len() == self.chunk_tile_count as nat,
    {
        sample_noise_grid(self.seed, self.chunk_tile_count, position.x, position.y)
    }
}

} // verus!
