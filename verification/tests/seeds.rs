use tileworld::config::MapConfig;
use tileworld::seed::{randomize_seed, seed_from_text};

#[test]
fn seed_of_the_empty_text() {
    // SHA-256 of the empty input starts with e3b0c44298fc1c14.
    assert_eq!(seed_from_text(""), 0xe3b0c44298fc1c14);
}

#[test]
fn seed_of_a_known_text() {
    // SHA-256 of "hello" starts with 2cf24dba5fb0a30e.
    assert_eq!(seed_from_text("hello"), 0x2cf24dba5fb0a30e);
}

#[test]
fn seed_from_text_is_deterministic() {
    assert_eq!(seed_from_text("fjord"), seed_from_text("fjord"));
    assert_ne!(seed_from_text("fjord"), seed_from_text("fjords"));
}

#[test]
fn randomize_seed_keeps_the_sizes_and_the_seed_range() {
    let mut config = MapConfig { tile_size: 15, chunk_tile_count: 20, seed: 1 };
    randomize_seed(&mut config);
    assert_eq!(config.tile_size, 15);
    assert_eq!(config.chunk_tile_count, 20);
    assert!(config.seed <= u64::MAX - 8);
}
