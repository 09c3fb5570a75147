//! Terrain tile categories and their display colors.
//!
//! A tile kind is derived from a continuous noise sample via fixed, ordered
//! threshold bands. Noise samples are carried as fixed-point values in
//! millionths, so the band for high grass, for example, begins strictly above
//! 0.4 (400000 millionths).

use vstd::prelude::*;

verus! {

/// A noise sample, in millionths of a unit. A sample of 400000 stands for 0.4.
pub type NoiseValue = i64;

/// Strictly exclusive lower bound of the high-grass band, in millionths.
pub const HIGH_GRASS_THRESHOLD: i64 = 400000;
/// Strictly exclusive lower bound of the grass band, in millionths.
pub const GRASS_THRESHOLD: i64 = 100000;
/// Strictly exclusive lower bound of the sand band, in millionths.
pub const SAND_THRESHOLD: i64 = 0;
/// Strictly exclusive lower bound of the water band, in millionths.
pub const WATER_THRESHOLD: i64 = -500000;

/// The closed set of terrain categories a tile can take.
#[derive(Debug, Clone, Copy, PartialEq, Eq, Structural)]
pub enum TileKind {
    Water,
    DeepWater,
    HighGrass,
    Grass,
    Sand,
}

/// The kinds of tile, under the name used by the map scheduling layer.
pub type TileType = TileKind;

/// An opaque 8-bit-per-channel display color.
#[derive(Debug, Clone, Copy, PartialEq, Eq, Structural)]
pub struct Color {
    pub r: u8,
    pub g: u8,
    pub b: u8,
}

/// The tile kind that a noise sample falls into: fixed threshold bands,
/// strictly exclusive on the lower bound of each band.
pub open spec fn classify_spec(value: NoiseValue) -> TileKind {
    if value > HIGH_GRASS_THRESHOLD {
        TileKind::HighGrass
    } else if value > GRASS_THRESHOLD {
        TileKind::Grass
    } else if value > SAND_THRESHOLD {
        TileKind::Sand
    } else if value > WATER_THRESHOLD {
        TileKind::Water
    } else {
        TileKind::DeepWater
    }
}

/// Classifies a noise sample into its tile kind.
///
/// A value exactly equal to a threshold falls into the next lower band.
pub fn classify(value: NoiseValue) -> (kind: TileKind)
    ensures
        kind == classify_spec(value),
{
    if value > HIGH_GRASS_THRESHOLD {
        TileKind::HighGrass
    } else if value > GRASS_THRESHOLD {
        TileKind::Grass
    } else if value > SAND_THRESHOLD {
        TileKind::Sand
    } else if value > WATER_THRESHOLD {
        TileKind::Water
    } else {
        TileKind::DeepWater
    }
}

/// The fixed display color of each tile kind.
pub open spec fn color_spec(kind: TileKind) -> Color {
    match kind {
        TileKind::Water => Color { r: 0x26, g: 0x00, b: 0xFE },
        TileKind::DeepWater => Color { r: 0x22, g: 0x00, b: 0xE6 },
        TileKind::Grass => Color { r: 0x54, g: 0xBE, b: 0x44 },
        TileKind::HighGrass => Color { r: 0x4A, g: 0xAD, b: 0x40 },
        TileKind::Sand => Color { r: 0xFD, g: 0xF1, b: 0xD4 },
    }
}

/// The color that the chunk-border overlay is drawn in.
pub open spec fn border_color_spec() -> Color {
    Color { r: 0x80, g: 0x80, b: 0x80 }
}

impl TileKind {
    /// Returns the fixed display color used when rasterizing this kind.
    pub fn color(self) -> (c: Color)
        ensures
            c == color_spec(self),
    {
        match self {
            TileKind::Water => Color { r: 0x26, g: 0x00, b: 0xFE },
            TileKind::DeepWater => Color { r: 0x22, g: 0x00, b: 0xE6 },
            TileKind::Grass => Color { r: 0x54, g: 0xBE, b: 0x44 },
            TileKind::HighGrass => Color { r: 0x4A, g: 0xAD, b: 0x40 },
            TileKind::Sand => Color { r: 0xFD, g: 0xF1, b: 0xD4 },
        }
    }
}

impl Color {
    /// The color that the chunk-border overlay is drawn in.
    pub fn border() -> (c: Color)
        ensures
            c == border_color_spec(),
    {
        Color { r: 0x80, g: 0x80, b: 0x80 }
    }
}

} // verus!
