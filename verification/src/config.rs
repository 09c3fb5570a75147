//! Map configuration: tile pixel size, chunk tile count, and the noise seed.
//!
//! A configuration is validated before use: both sizes must be positive, and
//! the derived chunk pixel size is kept small enough that a chunk's pixel
//! buffer always fits in memory. An invalid update is rejected and the prior
//! configuration stays in effect.

use vstd::prelude::*;

verus! {

/// Default size of a tile in pixels.
pub const TILE_SIZE: u32 = 15;
/// Default number of tiles along one side of a chunk.
pub const CHUNK_TILE_COUNT: u32 = 20;
/// Largest chunk pixel size a configuration may derive, so that a chunk's
/// pixel buffer length `chunk_size * chunk_size` always fits comfortably.
pub const MAX_CHUNK_SIZE: u32 = 32768;

/// Largest seed a configuration may hold. The noise generator offsets the
/// seed by each octave index, at most eight, so the seed must leave that
/// much headroom below the 64-bit limit.
pub const MAX_SEED: u64 = 0xFFFFFFFFFFFFFFF7;

/// The product of two 32-bit values fits in 64 bits.
proof fn lemma_u32_mul_fits(a: int, b: int)
    requires
        0 <= a < 0x100000000,
        0 <= b < 0x100000000,
    ensures
        0 <= a * b < 0x10000000000000000,
{
    assert(0 <= a * b < 0x10000000000000000) by (nonlinear_arith)
        requires
            0 <= a < 0x100000000,
            0 <= b < 0x100000000,
    ;
}

/// The mutable map parameters.
#[derive(Debug, Clone, Copy, PartialEq, Eq, Structural)]
pub struct MapConfig {
    /// Size of a tile in pixels.
    pub tile_size: u32,
    /// The number of tiles along one side of a chunk.
    pub chunk_tile_count: u32,
    /// Seed of the noise field; at most `MAX_SEED`.
    pub seed: u64,
}

impl MapConfig {
    /// A usable configuration: both sizes positive, the derived chunk pixel
    /// size bounded, and the seed low enough for the noise generator's
    /// per-octave offsets.
    pub open spec fn valid(self) -> bool {
        &&& self.tile_size >= 1
        &&& self.chunk_tile_count >= 1
        &&& self.chunk_tile_count * self.tile_size <= MAX_CHUNK_SIZE
        &&& self.seed <= MAX_SEED
    }

    /// Size of a chunk in pixels: tiles per side times pixels per tile.
    pub open spec fn chunk_size_spec(self) -> int {
        self.chunk_tile_count * self.tile_size
    }

    /// Size of a chunk in pixels.
    pub fn chunk_size(&self) -> (size: u32)
        requires
            self.valid(),
        ensures
            size as int == self.chunk_size_spec(),
            1 <= size <= MAX_CHUNK_SIZE,
    {
        proof {
            assert(1 <= self.chunk_tile_count * self.tile_size) by (nonlinear_arith)
                requires
                    self.tile_size >= 1,
                    self.chunk_tile_count >= 1,
            ;
        }
        self.chunk_tile_count * self.tile_size
    }

    /// Builds a configuration, rejecting one whose sizes are unusable.
    /// Returns `Some` exactly when the parameters form a valid configuration.
    pub fn new(tile_size: u32, chunk_tile_count: u32, seed: u64) -> (result: Option<MapConfig>)
        ensures
            match result {
                Some(config) => {
                    &&& config.tile_size == tile_size
                    &&& config.chunk_tile_count == chunk_tile_count
                    &&& config.seed == seed
                    &&& config.valid()
                },
                None => !(MapConfig { tile_size, chunk_tile_count, seed }).valid(),
            },
    {
        proof {
            lemma_u32_mul_fits(chunk_tile_count as int, tile_size as int);
        }
        if tile_size >= 1 && chunk_tile_count >= 1 && chunk_tile_count as u64 * tile_size as u64
            <= MAX_CHUNK_SIZE as u64 && seed <= MAX_SEED {
            Some(MapConfig { tile_size, chunk_tile_count, seed })
        } else {
            None
        }
    }

    /// Applies new sizes if they form a valid configuration, keeping the
    /// prior configuration otherwise. Returns whether the update was applied.
    /// The caller is expected to pair an applied update with a reload.
    pub fn try_update_sizes(&mut self, tile_size: u32, chunk_tile_count: u32) -> (applied: bool)
        ensures
            applied == (MapConfig { tile_size, chunk_tile_count, seed: old(self).seed }).valid(),
            applied ==> *final(self) == (MapConfig {
                tile_size,
                chunk_tile_count,
                seed: old(self).seed,
            }),
            !applied ==> *final(self) == *old(self),
    {
        proof {
            lemma_u32_mul_fits(chunk_tile_count as int, tile_size as int);
        }
        if tile_size >= 1 && chunk_tile_count >= 1 && chunk_tile_count as u64 * tile_size as u64
            <= MAX_CHUNK_SIZE as u64 && self.seed <= MAX_SEED {
            self.tile_size = tile_size;
            self.chunk_tile_count = chunk_tile_count;
            true
        } else {
            false
        }
    }
}

impl Default for MapConfig {
    /// The configuration in effect before any collaborator writes one.
    fn default() -> (config: MapConfig)
        ensures
            config == (MapConfig { tile_size: TILE_SIZE, chunk_tile_count: CHUNK_TILE_COUNT, seed: 0u64 }),
            config.valid(),
    {
        MapConfig { tile_size: TILE_SIZE, chunk_tile_count: CHUNK_TILE_COUNT, seed: 0 }
    }
}

} // verus!
