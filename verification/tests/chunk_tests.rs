use glengine::{Block, Chunk, CHUNK_H, CHUNK_VOL, CHUNK_W};

#[test]
fn new_chunk_is_all_air() {
    let c = Chunk::new(3, -2);
    for x in 0..CHUNK_W {
        for z in 0..CHUNK_W {
            for y in [0, 1, 64, 255] {
                assert_eq!(c.get(x, y, z), Block::Air);
            }
        }
    }
}

#[test]
fn set_then_get_returns_block() {
    let mut c = Chunk::new(0, 0);
    c.set(3, 70, 9, Block::Grass);
    assert_eq!(c.get(3, 70, 9), Block::Grass);
    assert_eq!(c.get(3, 70, 10), Block::Air);
    assert_eq!(c.get(4, 70, 9), Block::Air);
}

#[test]
fn every_block_kind_round_trips() {
    let kinds = [
        Block::Air,
        Block::Stone,
        Block::Dirt,
        Block::Grass,
        Block::Sand,
        Block::Water,
        Block::Bedrock,
    ];
    let mut c = Chunk::new(0, 0);
    for (i, b) in kinds.iter().enumerate() {
        c.set(i as i32, 5, 5, *b);
    }
    for (i, b) in kinds.iter().enumerate() {
        assert_eq!(c.get(i as i32, 5, 5), *b);
    }
}

#[test]
fn last_write_wins() {
    let mut c = Chunk::new(0, 0);
    c.set(15, 255, 15, Block::Stone);
    c.set(15, 255, 15, Block::Water);
    assert_eq!(c.get(15, 255, 15), Block::Water);
}

#[test]
fn writes_at_upper_bound_are_ignored() {
    let mut c = Chunk::new(0, 0);
    c.set(CHUNK_W, 0, 0, Block::Stone);
    c.set(0, CHUNK_H, 0, Block::Stone);
    c.set(0, 0, CHUNK_W, Block::Stone);
    assert_eq!(c.get(CHUNK_W, 0, 0), Block::Air);
    assert_eq!(c.get(0, CHUNK_H, 0), Block::Air);
    assert_eq!(c.get(0, 0, CHUNK_W), Block::Air);
    assert_eq!(c.get(0, 0, 0), Block::Air);
    assert_eq!(c.get(100, 300, 100), Block::Air);
}

#[test]
fn negative_coordinate_reaches_flat_cell() {
    // (1, -1, 0) has flat index 4096 - 16 = 4080, the cell of (0, 255, 0).
    let mut c = Chunk::new(0, 0);
    c.set(1, -1, 0, Block::Dirt);
    assert_eq!(c.get(0, 255, 0), Block::Dirt);
    assert_eq!(c.get(1, -1, 0), Block::Dirt);
}

#[test]
fn chunk_volume_matches_dimensions() {
    assert_eq!(CHUNK_VOL, (CHUNK_W * CHUNK_H * CHUNK_W) as usize);
}

#[test]
fn block_bytes_round_trip() {
    for v in 0u8..=6 {
        assert_eq!(Block::from_u8(v).to_u8(), v);
    }
    assert_eq!(Block::from_u8(7), Block::Air);
    assert_eq!(Block::from_u8(255), Block::Air);
    assert_eq!(Block::Bedrock.to_u8(), 6);
}
