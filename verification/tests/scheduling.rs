use tileworld::chunk::{Chunk, ChunkBorderState};
use tileworld::chunk_position::ChunkPosition;
use tileworld::config::MapConfig;
use tileworld::noise::NoiseField;
use tileworld::scheduler::{diff_visible, tick, Message, MessageQueue, Viewport, WorldState};
use tileworld::store::ChunkStore;

fn spawned_positions(world: &WorldState) -> Vec<ChunkPosition> {
    world.store.positions()
}

#[test]
fn store_mints_fresh_handles() {
    let mut store = ChunkStore::new();
    let a = store.insert(ChunkPosition { x: 0, y: 0 });
    let b = store.insert(ChunkPosition { x: 1, y: 0 });
    let c = store.insert(ChunkPosition { x: 0, y: 1 });
    assert_eq!((a, b, c), (0, 1, 2));
    assert_eq!(store.len(), 3);
    assert!(store.contains_position(ChunkPosition { x: 1, y: 0 }));
    assert!(!store.contains_position(ChunkPosition { x: 2, y: 0 }));
}

#[test]
fn store_remove_releases_the_right_handle() {
    let mut store = ChunkStore::new();
    store.insert(ChunkPosition { x: 0, y: 0 });
    store.insert(ChunkPosition { x: 1, y: 0 });
    assert_eq!(store.remove(ChunkPosition { x: 1, y: 0 }), Some(1));
    assert_eq!(store.remove(ChunkPosition { x: 1, y: 0 }), None);
    assert_eq!(store.len(), 1);
}

#[test]
fn store_drain_releases_everything_and_keeps_the_counter() {
    let mut store = ChunkStore::new();
    store.insert(ChunkPosition { x: 0, y: 0 });
    store.insert(ChunkPosition { x: 1, y: 0 });
    let released = store.drain_all();
    assert_eq!(
        released,
        vec![(ChunkPosition { x: 0, y: 0 }, 0), (ChunkPosition { x: 1, y: 0 }, 1)]
    );
    assert_eq!(store.len(), 0);
    // Handles minted after the drain are still fresh.
    assert_eq!(store.insert(ChunkPosition { x: 0, y: 0 }), 2);
}

#[test]
fn diff_splits_spawn_and_despawn() {
    let mut store = ChunkStore::new();
    store.insert(ChunkPosition { x: 0, y: 0 });
    store.insert(ChunkPosition { x: 1, y: 0 });
    store.insert(ChunkPosition { x: 0, y: 1 });
    let visible = vec![
        ChunkPosition { x: 1, y: 0 },
        ChunkPosition { x: 0, y: 1 },
        ChunkPosition { x: 2, y: 0 },
    ];
    let (to_spawn, to_despawn) = diff_visible(&store, &visible);
    assert_eq!(to_spawn, vec![ChunkPosition { x: 2, y: 0 }]);
    assert_eq!(to_despawn, vec![ChunkPosition { x: 0, y: 0 }]);
}

#[test]
fn queue_coalesces_messages() {
    let mut queue = MessageQueue::new();
    queue.push(Message::Reload);
    queue.push(Message::Reload);
    queue.push(Message::BorderToggle);
    assert_eq!(queue.drain(), (true, true));
    assert_eq!(queue.drain(), (false, false));

    queue.push(Message::BorderToggle);
    queue.push(Message::BorderToggle);
    assert_eq!(queue.drain(), (true, false));
}

#[test]
fn tick_materializes_the_visible_set() {
    let config = MapConfig { tile_size: 1, chunk_tile_count: 1, seed: 7 };
    let mut world = WorldState::new(config);
    let viewport = Viewport { camera: (0, 0), half_extent: (1, 1) };
    let output = tick(&mut world, Some(viewport));
    // One-pixel chunks: two chunks cover each axis, plus the prefetch pad.
    assert_eq!(output.spawned.len(), 25);
    assert_eq!(output.despawned.len(), 0);
    assert_eq!(world.store.len(), 25);

    // An unchanged viewport is a fixpoint.
    let again = tick(&mut world, Some(viewport));
    assert_eq!(again.spawned.len(), 0);
    assert_eq!(again.despawned.len(), 0);
    assert_eq!(world.store.len(), 25);
}

#[test]
fn tick_despawns_before_it_spawns() {
    let config = MapConfig { tile_size: 1, chunk_tile_count: 1, seed: 7 };
    let mut world = WorldState::new(config);
    let viewport = Viewport { camera: (0, 0), half_extent: (1, 1) };
    tick(&mut world, Some(viewport));
    let moved = Viewport { camera: (3, 0), half_extent: (1, 1) };
    let output = tick(&mut world, Some(moved));
    // The columns that scrolled out are released, the new ones spawned.
    assert_eq!(output.despawned.len(), 15);
    assert_eq!(output.spawned.len(), 15);
    assert_eq!(world.store.len(), 25);
    for record in &output.spawned {
        for (released, _) in &output.despawned {
            assert_ne!(record.position, *released);
        }
    }
}

#[test]
fn reload_empties_the_store_and_repopulates_the_same_set() {
    let config = MapConfig { tile_size: 1, chunk_tile_count: 1, seed: 7 };
    let mut world = WorldState::new(config);
    let viewport = Viewport { camera: (0, 0), half_extent: (1, 1) };
    let first = tick(&mut world, Some(viewport));
    let mut before = spawned_positions(&world);
    let old_handles: Vec<u64> = first.spawned.iter().map(|s| s.handle).collect();

    world.queue.push(Message::Reload);
    let unloaded = tick(&mut world, None);
    assert_eq!(world.store.len(), 0);
    assert_eq!(unloaded.despawned.len(), 25);

    let second = tick(&mut world, Some(viewport));
    assert_eq!(second.spawned.len(), 25);
    let mut after = spawned_positions(&world);
    before.sort_by_key(|p| (p.x, p.y));
    after.sort_by_key(|p| (p.x, p.y));
    assert_eq!(before, after);
    // The repopulated chunks carry fresh handles.
    for record in &second.spawned {
        assert!(!old_handles.contains(&record.handle));
    }
}

#[test]
fn border_toggle_flips_state_and_reloads() {
    let config = MapConfig { tile_size: 1, chunk_tile_count: 1, seed: 7 };
    let mut world = WorldState::new(config);
    let viewport = Viewport { camera: (0, 0), half_extent: (1, 1) };
    tick(&mut world, Some(viewport));
    assert_eq!(world.chunk_borders, ChunkBorderState::Hidden);

    world.queue.push(Message::BorderToggle);
    let output = tick(&mut world, Some(viewport));
    assert_eq!(world.chunk_borders, ChunkBorderState::Shown);
    // The toggle implies a reload: everything respawned.
    assert_eq!(output.despawned.len(), 25);
    assert_eq!(output.spawned.len(), 25);
}

#[test]
fn spawned_records_match_direct_generation() {
    let config = MapConfig { tile_size: 3, chunk_tile_count: 4, seed: 42 };
    let mut world = WorldState::new(config);
    let viewport = Viewport { camera: (0, 0), half_extent: (12, 12) };
    let output = tick(&mut world, Some(viewport));
    assert!(!output.spawned.is_empty());
    let field = NoiseField { seed: world.noise.seed, chunk_tile_count: world.noise.chunk_tile_count };
    for record in &output.spawned {
        let direct = Chunk::new(record.position, &field, &config);
        assert_eq!(record.chunk.0, direct.0);
        let bitmap = direct.generate_texture_image(&config, world.chunk_borders);
        assert_eq!(record.bitmap.width, bitmap.width);
        assert_eq!(record.bitmap.height, bitmap.height);
        assert_eq!(record.bitmap.pixels, bitmap.pixels);
        let expected_offset = record.position.placement_offset(&config);
        assert_eq!(record.offset, expected_offset);
    }
}

#[test]
fn zero_extent_viewport_tick_is_a_no_op() {
    let config = MapConfig { tile_size: 1, chunk_tile_count: 1, seed: 7 };
    let mut world = WorldState::new(config);
    let viewport = Viewport { camera: (0, 0), half_extent: (1, 1) };
    tick(&mut world, Some(viewport));
    assert_eq!(world.store.len(), 25);

    // A minimized window reports a zero extent: the materialized set and
    // its handles must stay untouched.
    let degenerate = Viewport { camera: (0, 0), half_extent: (0, 1) };
    let output = tick(&mut world, Some(degenerate));
    assert_eq!(output.spawned.len(), 0);
    assert_eq!(output.despawned.len(), 0);
    assert_eq!(world.store.len(), 25);

    let degenerate_other_axis = Viewport { camera: (0, 0), half_extent: (1, 0) };
    let output = tick(&mut world, Some(degenerate_other_axis));
    assert_eq!(output.spawned.len(), 0);
    assert_eq!(output.despawned.len(), 0);
    assert_eq!(world.store.len(), 25);
}

#[test]
fn tick_without_viewport_is_a_no_op() {
    let config = MapConfig { tile_size: 1, chunk_tile_count: 1, seed: 7 };
    let mut world = WorldState::new(config);
    let viewport = Viewport { camera: (0, 0), half_extent: (1, 1) };
    tick(&mut world, Some(viewport));
    let output = tick(&mut world, None);
    assert_eq!(output.spawned.len(), 0);
    assert_eq!(output.despawned.len(), 0);
    assert_eq!(world.store.len(), 25);
}

#[test]
fn config_updates_are_validated() {
    let mut config = MapConfig { tile_size: 15, chunk_tile_count: 20, seed: 0 };
    assert!(!config.try_update_sizes(0, 20));
    assert_eq!(config.tile_size, 15);
    assert_eq!(config.chunk_tile_count, 20);
    assert!(config.try_update_sizes(4, 50));
    assert_eq!(config.tile_size, 4);
    assert_eq!(config.chunk_tile_count, 50);
    assert!(MapConfig::new(0, 5, 1).is_none());
    assert!(MapConfig::new(1000, 1000, 1).is_none());
    // The seed must leave headroom for the noise generator's octave offsets.
    assert!(MapConfig::new(15, 20, u64::MAX).is_none());
    assert!(MapConfig::new(15, 20, u64::MAX - 8).is_some());
    let built = MapConfig::new(15, 20, 9).unwrap();
    assert_eq!(built.chunk_size(), 300);
}

#[test]
fn default_config_matches_the_documented_sizes() {
    let config = MapConfig::default();
    assert_eq!(config.tile_size, 15);
    assert_eq!(config.chunk_tile_count, 20);
    assert_eq!(config.chunk_size(), 300);
}
