use pigeon::math::{BlockPos, ChunkPos};

#[test]
fn chunk_from_block() {
    assert_eq!(ChunkPos::from_block(0, 0), ChunkPos::new(0, 0));
    assert_eq!(ChunkPos::from_block(15, 15), ChunkPos::new(0, 0));
    assert_eq!(ChunkPos::from_block(16, 16), ChunkPos::new(1, 1));
    assert_eq!(ChunkPos::from_block(-1, -1), ChunkPos::new(-1, -1));
    assert_eq!(ChunkPos::from_block(-16, -16), ChunkPos::new(-1, -1));
}

#[test]
fn region_invariants() {
    let pos = ChunkPos::new(33, -5);
    assert_eq!(pos.region_pos(), (1, -1));
    assert_eq!(pos.region_local(), (1, 27));
}

#[test]
fn positions_add_and_subtract_componentwise() {
    let p = BlockPos::new(1, -2, 3) + BlockPos::new(10, 20, -30);
    assert_eq!(p, BlockPos::new(11, 18, -27));
    let c = ChunkPos::new(4, -5) + ChunkPos::new(-1, 2);
    assert_eq!(c, ChunkPos::new(3, -3));
    assert_eq!(ChunkPos::new(4, -5) - ChunkPos::new(-1, 2), ChunkPos::new(5, -7));
}
