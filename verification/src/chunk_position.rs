//! Integer chunk-grid coordinates and their world-coordinate math.
//!
//! World coordinates are whole pixels; a chunk position is the world
//! coordinate divided by the chunk pixel size, rounded toward negative
//! infinity, so that every world point lies in exactly one chunk.

use vstd::prelude::*;

use crate::config::MapConfig;

verus! {

/// Integer chunk-grid coordinates. Two positions are equal iff both
/// components match; no spatial order beyond coordinate comparison.
#[derive(Debug, Clone, Copy, PartialEq, Eq, Structural)]
pub struct ChunkPosition {
    pub x: i32,
    pub y: i32,
}

/// Chunk-grid coordinates, under the name used by the map scheduling layer.
pub type Position = ChunkPosition;

/// Division of a world coordinate by a positive chunk size, rounded toward
/// negative infinity. Verus integer division is Euclidean, which for a
/// positive divisor coincides with flooring.
pub open spec fn floor_div_spec(a: int, b: int) -> int
    recommends
        b > 0,
{
    a / b
}

/// Divides a world coordinate by a positive pixel size, rounding toward
/// negative infinity.
fn floor_div(a: i32, b: u32) -> (q: i32)
    requires
        b >= 1,
    ensures
        q as int == floor_div_spec(a as int, b as int),
{
    let b64: u64 = b as u64;
    if a >= 0 {
        let q64: u64 = (a as u64) / b64;
        proof {
            assert(a as int / b as int <= a as int) by (nonlinear_arith)
                requires
                    a >= 0,
                    b >= 1,
            ;
        }
        q64 as i32
    } else {
        let m: u64 = (-(a as i64)) as u64;
        let q64: u64 = (m + b64 - 1) / b64;
        proof {
            lemma_neg_floor_div(a as int, b as int, m as int);
        }
        (-(q64 as i64)) as i32
    }
}

/// For a negative dividend, flooring division is the negated ceiling of the
/// magnitude: `a / b == -((m + b - 1) / b)` where `m == -a`.
proof fn lemma_neg_floor_div(a: int, b: int, m: int)
    requires
        a < 0,
        b >= 1,
        m == -a,
    ensures
        a / b == -((m + b - 1) / b),
        0 <= (m + b - 1) / b <= m,
{
    assert(a / b == -((m + b - 1) / b) && 0 <= (m + b - 1) / b <= m) by (nonlinear_arith)
        requires
            a < 0,
            b >= 1,
            m == -a,
    ;
}

impl ChunkPosition {
    /// The chunk-grid coordinate that contains a world-space pixel
    /// coordinate: each component is the world component divided by the
    /// chunk pixel size, rounded toward negative infinity.
    pub fn from_xy(value: (i32, i32), map_config: &MapConfig) -> (p: ChunkPosition)
        requires
            map_config.valid(),
        ensures
            p.x as int == floor_div_spec(value.0 as int, map_config.chunk_size_spec()),
            p.y as int == floor_div_spec(value.1 as int, map_config.chunk_size_spec()),
    {
        let size = map_config.chunk_size();
        ChunkPosition { x: floor_div(value.0, size), y: floor_div(value.1, size) }
    }
}

/// The world-space placement offset of a chunk along one axis: the chunk
/// pixel size times the coordinate less one, shifted by half a chunk to
/// center the chunk's origin. The shift rounds down for an odd chunk size.
pub open spec fn placement_offset_spec(chunk_size: int, coord: int) -> int {
    chunk_size * (coord - 1) + chunk_size / 2
}

impl ChunkPosition {
    /// The world-space placement offset at which a chunk generated for this
    /// position is registered with the display, consistent across both axes.
    pub fn placement_offset(&self, map_config: &MapConfig) -> (offset: (i64, i64))
        requires
            map_config.valid(),
        ensures
            offset.0 as int == placement_offset_spec(map_config.chunk_size_spec(), self.x as int),
            offset.1 as int == placement_offset_spec(map_config.chunk_size_spec(), self.y as int),
    {
        let size = map_config.chunk_size();
        let half = (size / 2) as i64;
        proof {
            lemma_offset_in_range(size as int, self.x as int);
            lemma_offset_in_range(size as int, self.y as int);
        }
        let offset_x = size as i64 * (self.x as i64 - 1) + half;
        let offset_y = size as i64 * (self.y as i64 - 1) + half;
        (offset_x, offset_y)
    }
}

/// A placement offset derived from a bounded chunk size and a 32-bit
/// coordinate stays far inside the 64-bit range.
proof fn lemma_offset_in_range(size: int, coord: int)
    requires
        1 <= size <= 32768,
        -0x80000000 <= coord <= 0x7fffffff,
    ensures
        -0x1000000000000 <= size * (coord - 1) <= 0x1000000000000,
{
    assert(-0x1000000000000 <= size * (coord - 1) <= 0x1000000000000) by (nonlinear_arith)
        requires
            1 <= size <= 32768,
            -0x80000000 <= coord <= 0x7fffffff,
    ;
}

/// A world coordinate round-trips through its chunk position within one
/// chunk pixel size: the chunk that `from_xy` selects spans a half-open
/// world interval that contains the coordinate.
pub proof fn lemma_world_round_trip(w: int, chunk_size: int)
    requires
        chunk_size >= 1,
    ensures
        chunk_size * floor_div_spec(w, chunk_size) <= w,
        w < chunk_size * floor_div_spec(w, chunk_size) + chunk_size,
{
    assert(chunk_size * (w / chunk_size) <= w && w < chunk_size * (w / chunk_size) + chunk_size)
        by (nonlinear_arith)
        requires
            chunk_size >= 1,
    ;
}

} // verus!
