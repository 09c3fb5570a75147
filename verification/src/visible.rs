//! The visible set: which chunk positions must be materialized for a
//! viewport.
//!
//! The set is the full rectangle of chunk coordinates around the camera's
//! chunk that covers the viewport's half-extent, widened by a prefetch
//! margin so that scrolling never pops a chunk into view with a visible
//! generation delay. The margin is a best-effort prefetch tuning knob, not a
//! hard correctness bound.

use vstd::prelude::*;

use crate::chunk_position::{floor_div_spec, ChunkPosition};
use crate::config::MapConfig;

verus! {

/// Prefetch margin, in chunks, added on every side of the viewport's
/// rectangle. Tunable; must stay at least one.
pub const PREFETCH_PAD: i32 = 1;

/// Largest world-space camera coordinate magnitude the calculator accepts.
pub const MAX_CAMERA_COORD: i32 = 1000000000;

/// Largest viewport half-extent, in world pixels, the calculator accepts.
pub const MAX_HALF_EXTENT: u32 = 1000000;

/// The number of chunks that cover `extent` world pixels along one axis,
/// plus one so that both partially covered border chunks are counted.
pub open spec fn axis_chunk_count(extent: int, chunk_size: int) -> int {
    (extent + chunk_size - 1) / chunk_size + 1
}

/// Smallest chunk coordinate of the visible range along one axis.
pub open spec fn visible_low(camera: int, extent: int, chunk_size: int) -> int {
    floor_div_spec(camera, chunk_size) - axis_chunk_count(extent, chunk_size) / 2
        - PREFETCH_PAD as int
}

/// Largest chunk coordinate of the visible range along one axis.
pub open spec fn visible_high(camera: int, extent: int, chunk_size: int) -> int {
    floor_div_spec(camera, chunk_size) + axis_chunk_count(extent, chunk_size) / 2
        + PREFETCH_PAD as int
}

/// Whether a chunk position lies in the visible rectangle of a camera and
/// viewport. A degenerate viewport with a zero extent sees nothing.
pub open spec fn in_visible_range(
    position: ChunkPosition,
    camera: (i32, i32),
    half_extent: (u32, u32),
    config: MapConfig,
) -> bool {
    let chunk_size = config.chunk_size_spec();
    &&& half_extent.0 > 0
    &&& half_extent.1 > 0
    &&& visible_low(camera.0 as int, half_extent.0 as int, chunk_size) <= position.x as int
        <= visible_high(camera.0 as int, half_extent.0 as int, chunk_size)
    &&& visible_low(camera.1 as int, half_extent.1 as int, chunk_size) <= position.y as int
        <= visible_high(camera.1 as int, half_extent.1 as int, chunk_size)
}

/// Flooring division by a positive divisor keeps a bounded value bounded.
proof fn lemma_div_bounded(a: int, b: int, bound: int)
    requires
        b >= 1,
        bound >= 0,
        -bound <= a <= bound,
    ensures
        -bound <= a / b <= bound,
{
    assert(-bound <= a / b <= bound) by (nonlinear_arith)
        requires
            b >= 1,
            bound >= 0,
            -bound <= a <= bound,
    ;
}

/// The area of the visible rectangle is the product of its side lengths.
proof fn lemma_area_bound(nx: int, ny: int, bound: int)
    requires
        0 <= nx <= bound,
        0 <= ny <= bound,
        bound >= 0,
    ensures
        0 <= nx * ny <= bound * bound,
{
    assert(0 <= nx * ny <= bound * bound) by (nonlinear_arith)
        requires
            0 <= nx <= bound,
            0 <= ny <= bound,
            bound >= 0,
    ;
}

/// Derives the set of chunk positions overlapping the viewport, with
/// prefetch padding: the full rectangle of positions within the visible
/// range, each exactly once. A viewport with a zero extent sees nothing and
/// yields the empty set; the scheduler treats such a viewport as absent, so
/// the empty set is never applied to the store.
pub fn visible_set(camera: (i32, i32), half_extent: (u32, u32), config: &MapConfig) -> (result: Vec<
    ChunkPosition,
>)
    requires
        config.valid(),
        -MAX_CAMERA_COORD <= camera.0 <= MAX_CAMERA_COORD,
        -MAX_CAMERA_COORD <= camera.1 <= MAX_CAMERA_COORD,
        half_extent.0 <= MAX_HALF_EXTENT,
        half_extent.1 <= MAX_HALF_EXTENT,
    ensures
        forall|position: ChunkPosition| #[trigger] result@.contains(position) == in_visible_range(
            position,
            camera,
            half_extent,
            *config,
        ),
        forall|i: int, j: int|
            0 <= i < result@.len() && 0 <= j < result@.len() && i != j ==> #[trigger] result@[i]
                != #[trigger] result@[j],
        result@.len() <= 0x10000000000,
        half_extent.0 == 0 || half_extent.1 == 0 ==> result@.len() == 0,
{
    if half_extent.0 == 0 || half_extent.1 == 0 {
        let result: Vec<ChunkPosition> = Vec::new();
        return result;
    }
    let chunk_size = config.chunk_size();
    let center = ChunkPosition::from_xy(camera, config);
    proof {
        lemma_div_bounded(camera.0 as int, chunk_size as int, MAX_CAMERA_COORD as int);
        lemma_div_bounded(camera.1 as int, chunk_size as int, MAX_CAMERA_COORD as int);
    }
    // Chunks needed to cover the viewport along each axis.
    proof {
        lemma_div_bounded(
            half_extent.0 + chunk_size - 1,
            chunk_size as int,
            MAX_HALF_EXTENT + 32767,
        );
        lemma_div_bounded(
            half_extent.1 + chunk_size - 1,
            chunk_size as int,
            MAX_HALF_EXTENT + 32767,
        );
    }
    let h_count: u32 = (half_extent.0 + chunk_size - 1) / chunk_size + 1;
    let v_count: u32 = (half_extent.1 + chunk_size - 1) / chunk_size + 1;
    let lo_x: i32 = center.x - (h_count / 2) as i32 - PREFETCH_PAD;
    let hi_x: i32 = center.x + (h_count / 2) as i32 + PREFETCH_PAD;
    let lo_y: i32 = center.y - (v_count / 2) as i32 - PREFETCH_PAD;
    let hi_y: i32 = center.y + (v_count / 2) as i32 + PREFETCH_PAD;
    let ghost ny: int = hi_y - lo_y + 1;
    let mut result: Vec<ChunkPosition> = Vec::new();
    let mut x: i32 = lo_x;
    while x <= hi_x
        invariant
            lo_x <= x <= hi_x + 1,
            lo_y <= hi_y,
            -0x7ffffff0 <= lo_x,
            hi_x <= 0x7ffffff0,
            -0x7ffffff0 <= lo_y,
            hi_y <= 0x7ffffff0,
            ny == hi_y - lo_y + 1,
            lo_x as int == visible_low(camera.0 as int, half_extent.0 as int, config.chunk_size_spec()),
            hi_x as int == visible_high(camera.0 as int, half_extent.0 as int, config.chunk_size_spec()),
            lo_y as int == visible_low(camera.1 as int, half_extent.1 as int, config.chunk_size_spec()),
            hi_y as int == visible_high(camera.1 as int, half_extent.1 as int, config.chunk_size_spec()),
            result@.len() == (x - lo_x) * ny,
            forall|p: ChunkPosition| #[trigger] result@.contains(p) == (lo_x <= p.x < x && lo_y
                <= p.y <= hi_y),
            forall|i: int, j: int|
                0 <= i < result@.len() && 0 <= j < result@.len() && i != j ==> #[trigger] result@[i]
                    != #[trigger] result@[j],
        decreases hi_x + 1 - x,
    {
        let mut y: i32 = lo_y;
        while y <= hi_y
            invariant
                lo_x <= x <= hi_x,
                lo_y <= y <= hi_y + 1,
                -0x7ffffff0 <= lo_y,
                hi_y <= 0x7ffffff0,
                ny == hi_y - lo_y + 1,
                result@.len() == (x - lo_x) * ny + (y - lo_y),
                forall|p: ChunkPosition| #[trigger] result@.contains(p) == (lo_x <= p.x < x && lo_y
                    <= p.y <= hi_y || p.x == x && lo_y <= p.y < y),
                forall|i: int, j: int|
                    0 <= i < result@.len() && 0 <= j < result@.len() && i != j
                        ==> #[trigger] result@[i] != #[trigger] result@[j],
            decreases hi_y + 1 - y,
        {
            let position = ChunkPosition { x, y };
            let ghost prev = result@;
            proof {
                assert(!prev.contains(position));
            }
            result.push(position);
            proof {
                assert forall|p: ChunkPosition| #[trigger] result@.contains(p) == (lo_x <= p.x < x
                    && lo_y <= p.y <= hi_y || p.x == x && lo_y <= p.y < y + 1) by {
                    if result@.contains(p) {
                        let k = choose|k: int| 0 <= k < result@.len() && result@[k] == p;
                        if k < prev.len() {
                            assert(prev[k] == p);
                            assert(prev.contains(p));
                        } else {
                            assert(p == position);
                        }
                    }
                    if lo_x <= p.x < x && lo_y <= p.y <= hi_y || p.x == x && lo_y <= p.y < y + 1 {
                        if p == position {
                            assert(result@[prev.len() as int] == p);
                        } else {
                            assert(prev.contains(p));
                            let k = choose|k: int| 0 <= k < prev.len() && prev[k] == p;
                            assert(result@[k] == p);
                        }
                    }
                }
                assert forall|i: int, j: int|
                    0 <= i < result@.len() && 0 <= j < result@.len() && i != j implies #[trigger] result@[i]
                    != #[trigger] result@[j] by {
                    if i < prev.len() && j < prev.len() {
                        assert(prev[i] != prev[j]);
                    } else if i < prev.len() {
                        assert(prev[i] != position) by {
                            if prev[i] == position {
                                assert(prev.contains(position));
                            }
                        }
                    } else {
                        assert(prev[j] != position) by {
                            if prev[j] == position {
                                assert(prev.contains(position));
                            }
                        }
                    }
                }
            }
            y += 1;
        }
        proof {
            assert((x - lo_x) * ny + ny == (x + 1 - lo_x) * ny) by (nonlinear_arith);
        }
        x += 1;
    }
    proof {
        assert(result@.len() == (hi_x + 1 - lo_x) * ny);
        lemma_area_bound(hi_x + 1 - lo_x, ny, 0x100000);
        assert(0x100000 * 0x100000 == 0x10000000000int);
        assert forall|p: ChunkPosition| #[trigger] result@.contains(p) == in_visible_range(
            p,
            camera,
            half_extent,
            *config,
        ) by {}
    }
    result
}

} // verus!
