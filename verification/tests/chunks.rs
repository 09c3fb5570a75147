use tileworld::chunk::{Chunk, ChunkBorderState};
use tileworld::chunk_position::ChunkPosition;
use tileworld::config::MapConfig;
use tileworld::noise::NoiseField;
use tileworld::tile_kind::{Color, TileKind};

#[test]
fn generation_is_deterministic() {
    let config = MapConfig { tile_size: 2, chunk_tile_count: 8, seed: 12345 };
    let field = NoiseField::new(&config);
    let position = ChunkPosition { x: 3, y: -2 };
    let first = Chunk::new(position, &field, &config);
    let second = Chunk::new(position, &field, &config);
    assert_eq!(first.0, second.0);

    let other_field = NoiseField::new(&config);
    let third = Chunk::new(position, &other_field, &config);
    assert_eq!(first.0, third.0);
}

#[test]
fn sampling_is_deterministic() {
    let config = MapConfig { tile_size: 1, chunk_tile_count: 5, seed: 99 };
    let field = NoiseField::new(&config);
    let position = ChunkPosition { x: -7, y: 11 };
    assert_eq!(field.sample_chunk(position), field.sample_chunk(position));
}

#[test]
fn sampled_grid_has_the_configured_dimensions() {
    let config = MapConfig { tile_size: 1, chunk_tile_count: 6, seed: 4 };
    let field = NoiseField::new(&config);
    let grid = field.sample_chunk(ChunkPosition { x: 0, y: 0 });
    assert_eq!(grid.len(), 6);
    for row in &grid {
        assert_eq!(row.len(), 6);
    }
}

#[test]
fn uniform_chunk_reports_its_kind() {
    let chunk = Chunk(vec![vec![TileKind::Grass; 4]; 4]);
    assert_eq!(chunk.is_uniform_kind(), Some(TileKind::Grass));
}

#[test]
fn one_differing_tile_breaks_uniformity() {
    let mut tiles = vec![vec![TileKind::Grass; 4]; 4];
    tiles[2][3] = TileKind::Sand;
    let chunk = Chunk(tiles);
    assert_eq!(chunk.is_uniform_kind(), None);
}

#[test]
fn rasterization_draws_rows_bottom_to_top() {
    let config = MapConfig { tile_size: 3, chunk_tile_count: 2, seed: 0 };
    let chunk = Chunk(vec![
        vec![TileKind::Water, TileKind::Sand],
        vec![TileKind::Grass, TileKind::HighGrass],
    ]);
    let bitmap = chunk.generate_texture_image(&config, ChunkBorderState::Hidden);
    assert_eq!(bitmap.width, 6);
    assert_eq!(bitmap.height, 6);
    // The grid's last row fills the top of the image.
    assert_eq!(bitmap.pixel(0, 0), TileKind::Grass.color());
    assert_eq!(bitmap.pixel(2, 2), TileKind::Grass.color());
    assert_eq!(bitmap.pixel(3, 0), TileKind::HighGrass.color());
    assert_eq!(bitmap.pixel(5, 2), TileKind::HighGrass.color());
    // The grid's first row fills the bottom of the image.
    assert_eq!(bitmap.pixel(0, 3), TileKind::Water.color());
    assert_eq!(bitmap.pixel(2, 5), TileKind::Water.color());
    assert_eq!(bitmap.pixel(3, 3), TileKind::Sand.color());
    assert_eq!(bitmap.pixel(5, 5), TileKind::Sand.color());
}

#[test]
fn uniform_chunk_rasterizes_to_one_color() {
    let config = MapConfig { tile_size: 3, chunk_tile_count: 2, seed: 0 };
    let chunk = Chunk(vec![vec![TileKind::DeepWater; 2]; 2]);
    let bitmap = chunk.generate_texture_image(&config, ChunkBorderState::Hidden);
    for x in 0..6 {
        for y in 0..6 {
            assert_eq!(bitmap.pixel(x, y), TileKind::DeepWater.color());
        }
    }
}

#[test]
fn border_overlays_top_and_left_strips() {
    let config = MapConfig { tile_size: 3, chunk_tile_count: 2, seed: 0 };
    let chunk = Chunk(vec![
        vec![TileKind::Water, TileKind::Sand],
        vec![TileKind::Grass, TileKind::HighGrass],
    ]);
    let bitmap = chunk.generate_texture_image(&config, ChunkBorderState::Shown);
    let border = Color { r: 0x80, g: 0x80, b: 0x80 };
    // Inside either five-pixel strip.
    assert_eq!(bitmap.pixel(0, 0), border);
    assert_eq!(bitmap.pixel(4, 5), border);
    assert_eq!(bitmap.pixel(5, 4), border);
    // Outside both strips the tile shows through.
    assert_eq!(bitmap.pixel(5, 5), TileKind::Sand.color());
}

#[test]
fn border_overlay_also_covers_a_uniform_chunk() {
    let config = MapConfig { tile_size: 3, chunk_tile_count: 2, seed: 0 };
    let chunk = Chunk(vec![vec![TileKind::Grass; 2]; 2]);
    let bitmap = chunk.generate_texture_image(&config, ChunkBorderState::Shown);
    let border = Color { r: 0x80, g: 0x80, b: 0x80 };
    assert_eq!(bitmap.pixel(0, 0), border);
    assert_eq!(bitmap.pixel(5, 5), TileKind::Grass.color());
}

#[test]
fn border_state_toggles() {
    assert_eq!(ChunkBorderState::Hidden.next(), ChunkBorderState::Shown);
    assert_eq!(ChunkBorderState::Shown.next(), ChunkBorderState::Hidden);
}

#[test]
fn generated_chunk_has_the_configured_dimensions() {
    let config = MapConfig { tile_size: 4, chunk_tile_count: 7, seed: 1 };
    let field = NoiseField::new(&config);
    let chunk = Chunk::new(ChunkPosition { x: 1, y: 1 }, &field, &config);
    assert_eq!(chunk.0.len(), 7);
    for row in &chunk.0 {
        assert_eq!(row.len(), 7);
    }
}
