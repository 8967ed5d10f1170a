//! Chunk section storage: paletted block and biome data.
use vstd::prelude::*;

verus! {

/// A 16×16×16 chunk section.
#[derive(Debug, Clone, Default)]
pub struct ChunkSection {
    pub y: i32,
    pub block_palette: Vec<u32>,
    pub block_data: Vec<u64>,
    pub biome_palette: Vec<u32>,
    pub biome_data: Vec<u64>,
    pub block_light: Option<Vec<u8>>,
    pub sky_light: Option<Vec<u8>>,
}

} // verus!
