//! A chunk: the square grid of tile kinds materialized for one chunk-grid
//! coordinate.
//!
//! A chunk is produced only by the generation step — sampling the noise
//! field and classifying every sample — and is never mutated in place;
//! reconfiguration produces an entirely new chunk.

use vstd::prelude::*;

use crate::bitmap::Bitmap;
use crate::chunk_position::ChunkPosition;
use crate::config::{MapConfig, MAX_SEED};
use crate::noise::{noise_grid_of, rows_view, NoiseField};
use crate::tile_kind::{
    border_color_spec, classify, classify_spec, color_spec, Color, NoiseValue, TileKind,
};

verus! {

/// Width, in pixels, of the border strips drawn along a chunk's top and
/// left edges when borders are shown.
pub const BORDER_WIDTH: u32 = 5;

/// Whether rasterization overlays a border strip on each chunk.
#[derive(Debug, Clone, Copy, PartialEq, Eq, Structural)]
pub enum ChunkBorderState {
    Hidden,
    Shown,
}

impl ChunkBorderState {
    /// The opposite border state.
    pub open spec fn next_spec(self) -> ChunkBorderState {
        match self {
            ChunkBorderState::Hidden => ChunkBorderState::Shown,
            ChunkBorderState::Shown => ChunkBorderState::Hidden,
        }
    }

    /// Toggles between the two states.
    pub fn next(self) -> (state: ChunkBorderState)
        ensures
            state == self.next_spec(),
    {
        match self {
            ChunkBorderState::Hidden => ChunkBorderState::Shown,
            ChunkBorderState::Shown => ChunkBorderState::Hidden,
        }
    }
}

/// A value inside a span of `c` blocks of size `b` indexes a block inside
/// the span.
proof fn lemma_div_block_range(a: int, b: int, c: int)
    requires
        b >= 1,
        0 <= a < c * b,
    ensures
        0 <= a / b < c,
{
    assert(0 <= a / b < c) by (nonlinear_arith)
        requires
            b >= 1,
            0 <= a < c * b,
    ;
}

/// A value inside block `k` of size `b` divides down to `k`.
proof fn lemma_div_in_block(a: int, b: int, k: int)
    requires
        b >= 1,
        k * b <= a < k * b + b,
    ensures
        a / b == k,
{
    assert(a / b == k) by (nonlinear_arith)
        requires
            b >= 1,
            k * b <= a < k * b + b,
    ;
}

/// Block `k` of `c` blocks of size `b` lies inside the span of the blocks.
proof fn lemma_block_in_span(b: int, k: int, c: int)
    requires
        b >= 1,
        0 <= k < c,
    ensures
        0 <= k * b,
        k * b + b <= c * b,
{
    assert(0 <= k * b && k * b + b <= c * b) by (nonlinear_arith)
        requires
            b >= 1,
            0 <= k < c,
    ;
}

/// The color a rasterized chunk shows at pixel `(px, py)` of its bitmap,
/// before any border overlay: the color of the tile whose square block
/// contains the pixel. Grid rows are drawn bottom to top, matching the
/// world's vertical axis, so image row zero shows the grid's last row.
pub open spec fn tile_pixel_spec(
    grid: Seq<Seq<TileKind>>,
    count: int,
    tile_size: int,
    px: int,
    py: int,
) -> Color {
    color_spec(grid[count - 1 - py / tile_size][px / tile_size])
}

/// The color a rasterized chunk shows at pixel `(px, py)`: the border color
/// on the top and left strips when borders are shown, the containing tile's
/// color everywhere else.
pub open spec fn raster_pixel_spec(
    grid: Seq<Seq<TileKind>>,
    count: int,
    tile_size: int,
    borders: ChunkBorderState,
    px: int,
    py: int,
) -> Color {
    if borders == ChunkBorderState::Shown && (px < BORDER_WIDTH || py < BORDER_WIDTH) {
        border_color_spec()
    } else {
        tile_pixel_spec(grid, count, tile_size, px, py)
    }
}

/// The tile grid that generation yields for a seed, tile count and chunk
/// position: every noise sample of the chunk's grid, classified.
pub open spec fn chunk_grid_spec(seed: u64, count: u32, x: i32, y: i32) -> Seq<Seq<TileKind>> {
    noise_grid_of(seed, count, x, y).map_values(
        |row: Seq<NoiseValue>| row.map_values(|v: NoiseValue| classify_spec(v)),
    )
}

/// Every cell of the grid holds the same kind as the first cell.
pub open spec fn uniform_spec(grid: Seq<Seq<TileKind>>) -> bool {
    forall|r: int, c: int|
        0 <= r < grid.len() && 0 <= c < grid[r].len() ==> #[trigger] grid[r][c] == grid[0][0]
}

/// A row-major square grid of tile kinds for one chunk coordinate.
pub struct Chunk(pub Vec<Vec<TileKind>>);

impl Chunk {
    /// The grid as a sequence of rows.
    pub open spec fn view_grid(self) -> Seq<Seq<TileKind>> {
        rows_view(self.0@)
    }

    /// A well-formed chunk: `count` rows of `count` tiles.
    pub open spec fn wf(self, count: u32) -> bool {
        &&& self.0@.len() == count as nat
        &&& forall|r: int| 0 <= r < self.0@.len() ==> (#[trigger] self.0@[r])@.len() == count as nat
    }

    /// Generates the chunk for a given position: samples the noise field and
    /// classifies every sample. A pure function of the field's seed, the
    /// tile count and the position, so regenerating at the same position
    /// always yields an identical grid.
    pub fn new(position: ChunkPosition, noisemap: &NoiseField, config: &MapConfig) -> (chunk: Chunk)
        requires
            config.valid(),
            noisemap.chunk_tile_count == config.chunk_tile_count,
            noisemap.seed <= MAX_SEED,
        ensures
            chunk.wf(config.chunk_tile_count),
            chunk.view_grid() == chunk_grid_spec(
                noisemap.seed,
                noisemap.chunk_tile_count,
                position.x,
                position.y,
            ),
    {
        let noise = noisemap.sample_chunk(position);
        let ghost target = chunk_grid_spec(
            noisemap.seed,
            noisemap.chunk_tile_count,
            position.x,
            position.y,
        );
        let mut tiles: Vec<Vec<TileKind>> = Vec::new();
        let mut r: usize = 0;
        while r < noise.len()
            invariant
                noise@.len() == noisemap.chunk_tile_count as nat,
                forall|i: int| 0 <= i < noise@.len() ==> (#[trigger] noise@[i])@.len()
                    == noisemap.chunk_tile_count as nat,
                rows_view(noise@) == noise_grid_of(
                    noisemap.seed,
                    noisemap.chunk_tile_count,
                    position.x,
                    position.y,
                ),
                target == chunk_grid_spec(
                    noisemap.seed,
                    noisemap.chunk_tile_count,
                    position.x,
                    position.y,
                ),
                r <= noise@.len(),
                tiles@.len() == r as nat,
                forall|i: int| 0 <= i < r ==> (#[trigger] tiles@[i])@ == target[i],
            decreases noise@.len() - r,
        {
            let row = &noise[r];
            let mut kinds: Vec<TileKind> = Vec::new();
            let mut c: usize = 0;
            while c < row.len()
                invariant
                    c <= row@.len(),
                    kinds@.len() == c as nat,
                    forall|j: int| 0 <= j < c ==> kinds@[j] == classify_spec(row@[j]),
                decreases row@.len() - c,
            {
                kinds.push(classify(row[c]));
                c += 1;
            }
            proof {
                assert(kinds@ =~= row@.map_values(|v: NoiseValue| classify_spec(v)));
                assert(rows_view(noise@)[r as int] == row@);
            }
            tiles.push(kinds);
            r += 1;
        }
        let chunk = Chunk(tiles);
        proof {
            assert(chunk.view_grid() =~~= target);
        }
        chunk
    }

    /// Rasterizes the chunk to a square bitmap of `chunk_size` pixels per
    /// side: a uniform chunk is filled with one solid color, any other chunk
    /// is drawn as one `tile_size` square block per tile, rows bottom to
    /// top. When borders are shown, fixed-width strips along the top and
    /// left edges are overlaid after the tile fill.
    pub fn generate_texture_image(&self, config: &MapConfig, chunk_borders: ChunkBorderState) -> (bitmap:
        Bitmap)
        requires
            config.valid(),
            self.wf(config.chunk_tile_count),
        ensures
            bitmap.wf(),
            bitmap.width as int == config.chunk_size_spec(),
            bitmap.height as int == config.chunk_size_spec(),
            forall|px: int, py: int|
                0 <= px < config.chunk_size_spec() && 0 <= py < config.chunk_size_spec()
                    ==> #[trigger] bitmap.pixel_spec(px, py) == raster_pixel_spec(
                    self.view_grid(),
                    config.chunk_tile_count as int,
                    config.tile_size as int,
                    chunk_borders,
                    px,
                    py,
                ),
    {
        let size = config.chunk_size();
        let ts = config.tile_size;
        let count = config.chunk_tile_count;
        let ghost grid = self.view_grid();
        let mut bitmap: Bitmap;
        if let Some(kind) = self.is_uniform_kind() {
            bitmap = Bitmap::new_filled(size, size, kind.color());
            proof {
                assert forall|px: int, py: int| 0 <= px < size && 0 <= py < size implies #[trigger] bitmap.pixel_spec(px, py)
                    == tile_pixel_spec(grid, count as int, ts as int, px, py) by {
                    lemma_div_block_range(px, ts as int, count as int);
                    lemma_div_block_range(py, ts as int, count as int);
                    assert(grid[count - 1 - py / (ts as int)][px / (ts as int)] == grid[0][0]);
                }
            }
        } else {
            bitmap = Bitmap::new_filled(size, size, Color::border());
            let mut row_index: u32 = 0;
            let mut rect_y: u32 = 0;
            while row_index < count
                invariant
                    config.valid(),
                    self.wf(count),
                    count == config.chunk_tile_count,
                    ts == config.tile_size,
                    size as int == count * ts,
                    size <= 32768,
                    grid == self.view_grid(),
                    bitmap.wf(),
                    bitmap.width == size,
                    bitmap.height == size,
                    row_index <= count,
                    rect_y as int == row_index * ts,
                    forall|px: int, py: int|
                        0 <= px < size && 0 <= py < size ==> #[trigger] bitmap.pixel_spec(px, py)
                            == (if py < rect_y {
                            tile_pixel_spec(grid, count as int, ts as int, px, py)
                        } else {
                            border_color_spec()
                        }),
                decreases count - row_index,
            {
                proof {
                    lemma_block_in_span(ts as int, row_index as int, count as int);
                }
                let grid_row = count - 1 - row_index;
                let row = &self.0[grid_row as usize];
                let mut tile_index: u32 = 0;
                let mut rect_x: u32 = 0;
                while tile_index < count
                    invariant
                        config.valid(),
                        self.wf(count),
                        count == config.chunk_tile_count,
                        ts == config.tile_size,
                        size as int == count * ts,
                        size <= 32768,
                        grid == self.view_grid(),
                        bitmap.wf(),
                        bitmap.width == size,
                        bitmap.height == size,
                        row_index < count,
                        grid_row == count - 1 - row_index,
                        row@ == self.0@[grid_row as int]@,
                        rect_y as int == row_index * ts,
                        rect_y + ts <= size,
                        tile_index <= count,
                        rect_x as int == tile_index * ts,
                        forall|px: int, py: int|
                            0 <= px < size && 0 <= py < size ==> #[trigger] bitmap.pixel_spec(
                                px,
                                py,
                            ) == (if py < rect_y || py < rect_y + ts && px < rect_x {
                                tile_pixel_spec(grid, count as int, ts as int, px, py)
                            } else {
                                border_color_spec()
                            }),
                    decreases count - tile_index,
                {
                    proof {
                        lemma_block_in_span(ts as int, tile_index as int, count as int);
                    }
                    let color = row[tile_index as usize].color();
                    let ghost before = bitmap;
                    bitmap.fill_rect(rect_x, rect_y, ts, ts, color);
                    proof {
                        assert forall|px: int, py: int| 0 <= px < size && 0 <= py < size implies #[trigger] bitmap.pixel_spec(px, py)
                            == (if py < rect_y || py < rect_y + ts && px < rect_x + ts {
                            tile_pixel_spec(grid, count as int, ts as int, px, py)
                        } else {
                            border_color_spec()
                        }) by {
                            if rect_x <= px < rect_x + ts && rect_y <= py < rect_y + ts {
                                lemma_div_in_block(px, ts as int, tile_index as int);
                                lemma_div_in_block(py, ts as int, row_index as int);
                            }
                        }
                    }
                    tile_index += 1;
                    proof {
                        assert((tile_index - 1) * ts + ts == tile_index * ts) by (nonlinear_arith);
                    }
                    rect_x += ts;
                }
                row_index += 1;
                proof {
                    assert((row_index - 1) * ts + ts == row_index * ts) by (nonlinear_arith);
                }
                rect_y += ts;
            }
            proof {
                assert forall|px: int, py: int| 0 <= px < size && 0 <= py < size implies #[trigger] bitmap.pixel_spec(px, py)
                    == tile_pixel_spec(grid, count as int, ts as int, px, py) by {
                    assert(py < rect_y);
                }
            }
        }
        let ghost tiled = bitmap;
        if chunk_borders == ChunkBorderState::Shown {
            let bw = if size < BORDER_WIDTH {
                size
            } else {
                BORDER_WIDTH
            };
            bitmap.fill_rect(0, 0, bw, size, Color::border());
            bitmap.fill_rect(0, 0, size, bw, Color::border());
        }
        proof {
            assert forall|px: int, py: int| 0 <= px < size && 0 <= py < size implies #[trigger] bitmap.pixel_spec(px, py)
                == raster_pixel_spec(grid, count as int, ts as int, chunk_borders, px, py) by {
                assert(tiled.pixel_spec(px, py) == tile_pixel_spec(
                    grid,
                    count as int,
                    ts as int,
                    px,
                    py,
                ));
            }
        }
        bitmap
    }

    /// Returns the kind shared by every tile, exactly when the whole grid is
    /// uniform; `None` as soon as any two tiles differ. Used purely as a
    /// rasterization optimization.
    pub fn is_uniform_kind(&self) -> (result: Option<TileKind>)
        requires
            self.0@.len() >= 1,
            self.0@[0]@.len() >= 1,
        ensures
            result == (if uniform_spec(self.view_grid()) {
                Some(self.view_grid()[0][0])
            } else {
                None::<TileKind>
            }),
    {
        let first = self.0[0][0];
        let mut r: usize = 0;
        while r < self.0.len()
            invariant
                self.0@.len() >= 1,
                self.0@[0]@.len() >= 1,
                r <= self.0@.len(),
                first == self.view_grid()[0][0],
                forall|i: int, j: int|
                    0 <= i < r && 0 <= j < self.0@[i]@.len() ==> #[trigger] self.view_grid()[i][j]
                        == first,
            decreases self.0@.len() - r,
        {
            let row = &self.0[r];
            let mut c: usize = 0;
            while c < row.len()
                invariant
                    self.0@.len() >= 1,
                    self.0@[0]@.len() >= 1,
                    r < self.0@.len(),
                    row@ == self.0@[r as int]@,
                    c <= row@.len(),
                    first == self.view_grid()[0][0],
                    forall|i: int, j: int|
                        0 <= i < r && 0 <= j < self.0@[i]@.len() ==> #[trigger] self.view_grid()[i][j]
                            == first,
                    forall|j: int| 0 <= j < c ==> #[trigger] self.view_grid()[r as int][j] == first,
                decreases row@.len() - c,
            {
                if row[c] != first {
                    proof {
                        assert(self.view_grid()[r as int][c as int] != self.view_grid()[0][0]);
                    }
                    return None;
                }
                c += 1;
            }
            r += 1;
        }
        Some(first)
    }
}

/// Generation is deterministic: two tile grids derived from the same seed,
/// tile count and chunk position are identical, so a fixed noise field
/// always regenerates a chunk bit for bit.
pub proof fn lemma_generation_deterministic(
    g1: Seq<Seq<TileKind>>,
    g2: Seq<Seq<TileKind>>,
    seed: u64,
    count: u32,
    x: i32,
    y: i32,
)
    requires
        g1 == chunk_grid_spec(seed, count, x, y),
        g2 == chunk_grid_spec(seed, count, x, y),
    ensures
        g1 == g2,
{
}

} // verus!
