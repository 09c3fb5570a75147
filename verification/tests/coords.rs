use tileworld::chunk_position::{ChunkPosition, Position};
use tileworld::config::MapConfig;
use tileworld::visible::visible_set;

fn hundred_pixel_chunks() -> MapConfig {
    MapConfig { tile_size: 10, chunk_tile_count: 10, seed: 0 }
}

#[test]
fn from_xy_divides_by_the_chunk_size() {
    let config = hundred_pixel_chunks();
    let p = ChunkPosition::from_xy((250, 99), &config);
    assert_eq!(p, ChunkPosition { x: 2, y: 0 });
}

#[test]
fn from_xy_rounds_toward_negative_infinity() {
    let config = hundred_pixel_chunks();
    let p = ChunkPosition::from_xy((-1, -100), &config);
    assert_eq!(p, ChunkPosition { x: -1, y: -1 });
    let q = ChunkPosition::from_xy((-101, -99), &config);
    assert_eq!(q, ChunkPosition { x: -2, y: -1 });
}

#[test]
fn from_xy_at_the_origin() {
    let config = hundred_pixel_chunks();
    assert_eq!(ChunkPosition::from_xy((0, 0), &config), ChunkPosition { x: 0, y: 0 });
}

#[test]
fn position_names_the_same_coordinates() {
    let config = hundred_pixel_chunks();
    let p = Position::from_xy((150, -150), &config);
    assert_eq!(p, ChunkPosition { x: 1, y: -2 });
}

#[test]
fn placement_offset_centers_the_chunk() {
    let config = hundred_pixel_chunks();
    assert_eq!(ChunkPosition { x: 0, y: 0 }.placement_offset(&config), (-50, -50));
    assert_eq!(ChunkPosition { x: 1, y: 1 }.placement_offset(&config), (50, 50));
    assert_eq!(ChunkPosition { x: 2, y: -1 }.placement_offset(&config), (150, -150));
}

#[test]
fn world_coordinate_round_trips_within_one_chunk() {
    let config = hundred_pixel_chunks();
    for w in [-250, -101, -100, -1, 0, 1, 99, 100, 250] {
        let p = ChunkPosition::from_xy((w, 0), &config);
        let low = 100 * (p.x as i64);
        assert!(low <= w as i64 && (w as i64) < low + 100);
    }
}

#[test]
fn visible_set_contains_center_and_all_neighbors() {
    let config = hundred_pixel_chunks();
    let visible = visible_set((0, 0), (250, 250), &config);
    for dx in -1..=1 {
        for dy in -1..=1 {
            let wanted = ChunkPosition { x: dx, y: dy };
            assert!(visible.iter().any(|p| *p == wanted));
        }
    }
}

#[test]
fn visible_set_has_no_duplicates() {
    let config = hundred_pixel_chunks();
    let visible = visible_set((130, -270), (250, 150), &config);
    for i in 0..visible.len() {
        for j in 0..visible.len() {
            if i != j {
                assert_ne!(visible[i], visible[j]);
            }
        }
    }
}

#[test]
fn zero_extent_viewport_sees_nothing() {
    let config = hundred_pixel_chunks();
    assert_eq!(visible_set((0, 0), (0, 250), &config).len(), 0);
    assert_eq!(visible_set((0, 0), (250, 0), &config).len(), 0);
}
