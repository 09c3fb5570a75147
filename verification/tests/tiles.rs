use tileworld::tile_kind::{classify, Color, TileKind, TileType};

#[test]
fn classify_high_grass_threshold_is_strict() {
    // 0.4 exactly falls into the next lower band.
    assert_eq!(classify(400000), TileKind::Grass);
    // 0.40001 is strictly above the threshold.
    assert_eq!(classify(400010), TileKind::HighGrass);
}

#[test]
fn classify_zero_is_water() {
    assert_eq!(classify(0), TileKind::Water);
}

#[test]
fn classify_deep_water_threshold_is_strict() {
    assert_eq!(classify(-500000), TileKind::DeepWater);
    assert_eq!(classify(-499999), TileKind::Water);
}

#[test]
fn classify_grass_and_sand_bands() {
    assert_eq!(classify(100000), TileKind::Sand);
    assert_eq!(classify(100001), TileKind::Grass);
    assert_eq!(classify(1), TileKind::Sand);
    assert_eq!(classify(250000), TileKind::Grass);
    assert_eq!(classify(-600000), TileKind::DeepWater);
}

#[test]
fn colors_are_the_fixed_lookup_table() {
    assert_eq!(TileKind::Water.color(), Color { r: 0x26, g: 0x00, b: 0xFE });
    assert_eq!(TileKind::DeepWater.color(), Color { r: 0x22, g: 0x00, b: 0xE6 });
    assert_eq!(TileKind::Grass.color(), Color { r: 0x54, g: 0xBE, b: 0x44 });
    assert_eq!(TileKind::HighGrass.color(), Color { r: 0x4A, g: 0xAD, b: 0x40 });
    assert_eq!(TileKind::Sand.color(), Color { r: 0xFD, g: 0xF1, b: 0xD4 });
}

#[test]
fn tile_type_names_the_same_kinds() {
    let t: TileType = TileKind::Grass;
    assert_eq!(t, TileKind::Grass);
}
