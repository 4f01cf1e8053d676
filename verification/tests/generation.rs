use voxel_terrain::blocks::{Block, BlockType};
use voxel_terrain::chunk::{Chunk, ChunkPosition, CHUNK_HEIGHT, CHUNK_SIZE};
use voxel_terrain::world_gen::{clamp_height, WorldGenerator};

fn flat_heights(h: u8) -> Vec<u8> {
    vec![h; CHUNK_SIZE * CHUNK_SIZE]
}

#[test]
fn clamp_height_is_identity_in_range() {
    assert_eq!(clamp_height(0), 0);
    assert_eq!(clamp_height(100), 100);
    assert_eq!(clamp_height(255), 255);
}

#[test]
fn clamp_height_clamps_low_and_high() {
    assert_eq!(clamp_height(-1), 0);
    assert_eq!(clamp_height(i64::MIN), 0);
    assert_eq!(clamp_height(256), 255);
    assert_eq!(clamp_height(i64::MAX), 255);
}

#[test]
fn clamped_height_always_in_chunk_range() {
    for raw in [i64::MIN, -1000, -1, 0, 1, 64, 255, 256, 4096, i64::MAX] {
        let h = clamp_height(raw);
        assert!((h as usize) < CHUNK_HEIGHT);
    }
}

#[test]
fn generation_fills_grass_up_to_and_including_height() {
    let gen = WorldGenerator::new(42);
    let mut chunk = Chunk::new(ChunkPosition::new(0, 0));
    gen.generate_chunk(&mut chunk, &flat_heights(5));
    for y in 0..=5 {
        let b = chunk.get_block(3, y, 7).unwrap();
        assert!(matches!(b, BlockType::Grass(_)));
    }
    let above = chunk.get_block(3, 6, 7).unwrap();
    assert!(matches!(above, BlockType::Air(_)));
    let top = chunk.get_block(3, CHUNK_HEIGHT - 1, 7).unwrap();
    assert!(matches!(top, BlockType::Air(_)));
}

#[test]
fn generation_uses_per_column_heights() {
    let gen = WorldGenerator::new(7);
    let mut heights = flat_heights(0);
    // column (x, z) = (2, 9) raised to 10, the rest at 0
    heights[2 * CHUNK_SIZE + 9] = 10;
    let mut chunk = Chunk::new(ChunkPosition::new(-3, 4));
    gen.generate_chunk(&mut chunk, &heights);
    assert!(matches!(chunk.get_block(2, 10, 9).unwrap(), BlockType::Grass(_)));
    assert!(matches!(chunk.get_block(2, 11, 9).unwrap(), BlockType::Air(_)));
    assert!(matches!(chunk.get_block(3, 10, 9).unwrap(), BlockType::Air(_)));
    assert!(matches!(chunk.get_block(3, 0, 9).unwrap(), BlockType::Grass(_)));
}

#[test]
fn generation_is_deterministic() {
    let gen = WorldGenerator::new(1234);
    let mut heights = flat_heights(63);
    heights[37] = 200;
    heights[255] = 0;
    let mut a = Chunk::new(ChunkPosition::new(5, -9));
    let mut b = Chunk::new(ChunkPosition::new(5, -9));
    gen.generate_chunk(&mut a, &heights);
    gen.generate_chunk(&mut b, &heights);
    assert_eq!(a.blocks, b.blocks);
}

#[test]
fn generation_overwrites_previous_content() {
    let gen = WorldGenerator::new(0);
    let mut chunk = Chunk::new(ChunkPosition::new(0, 0));
    gen.generate_chunk(&mut chunk, &flat_heights(200));
    gen.generate_chunk(&mut chunk, &flat_heights(3));
    assert!(matches!(chunk.get_block(0, 3, 0).unwrap(), BlockType::Grass(_)));
    assert!(matches!(chunk.get_block(0, 4, 0).unwrap(), BlockType::Air(_)));
    assert!(matches!(chunk.get_block(0, 200, 0).unwrap(), BlockType::Air(_)));
}

#[test]
fn generator_keeps_its_seed() {
    let gen = WorldGenerator::new(0xDEADBEEF);
    assert_eq!(gen.get_seed(), 0xDEADBEEF);
}

#[test]
fn new_chunk_is_all_air_and_dirty() {
    let chunk = Chunk::new(ChunkPosition::new(1, 2));
    assert!(chunk.need_rebuilt);
    assert!(chunk.mesh.is_none());
    assert!(matches!(chunk.get_block(0, 0, 0).unwrap(), BlockType::Air(_)));
    assert!(matches!(
        chunk.get_block(CHUNK_SIZE - 1, CHUNK_HEIGHT - 1, CHUNK_SIZE - 1).unwrap(),
        BlockType::Air(_)
    ));
}

#[test]
fn get_block_out_of_bounds_is_none() {
    let chunk = Chunk::new(ChunkPosition::new(0, 0));
    assert!(chunk.get_block(CHUNK_SIZE, 0, 0).is_none());
    assert!(chunk.get_block(0, CHUNK_HEIGHT, 0).is_none());
    assert!(chunk.get_block(0, 0, CHUNK_SIZE).is_none());
}

#[test]
fn set_block_in_bounds_updates_and_flags() {
    let mut chunk = Chunk::new(ChunkPosition::new(0, 0));
    chunk.need_rebuilt = false;
    let grass = BlockType::Grass(voxel_terrain::blocks::GrassBlock::default());
    chunk.set_block(4, 50, 11, grass);
    assert!(matches!(chunk.get_block(4, 50, 11).unwrap(), BlockType::Grass(_)));
    assert!(chunk.need_rebuilt);
}

#[test]
fn set_block_out_of_bounds_is_ignored() {
    let mut chunk = Chunk::new(ChunkPosition::new(0, 0));
    chunk.need_rebuilt = false;
    let grass = BlockType::Grass(voxel_terrain::blocks::GrassBlock::default());
    chunk.set_block(CHUNK_SIZE, 0, 0, grass);
    assert!(!chunk.need_rebuilt);
    assert!(matches!(chunk.get_block(0, 0, 0).unwrap(), BlockType::Air(_)));
}

#[test]
fn air_is_transparent_grass_is_not() {
    let air = BlockType::Air(voxel_terrain::blocks::AirBlock::default());
    let grass = BlockType::Grass(voxel_terrain::blocks::GrassBlock::default());
    assert!(air.is_transparent());
    assert!(!grass.is_transparent());
}
