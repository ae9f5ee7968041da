use voxel_sandbox::block::BlockType;
use voxel_sandbox::coords::{ChunkCoord, CHUNK_VOLUME};
use voxel_sandbox::terrain::{Biome, TerrainGenerator, TerrainSamples};

fn flat(surface: i32, biome: Biome) -> TerrainSamples {
    TerrainSamples { surface: vec![surface; 1024], biome: vec![biome; 1024], cave: vec![false; CHUNK_VOLUME] }
}

#[test]
fn layers_by_height() {
    let g = TerrainGenerator::new(42);
    assert_eq!(g.block_at(-1, 10, Biome::Plains, false), BlockType::Bedrock);
    assert_eq!(g.block_at(11, 10, Biome::Plains, false), BlockType::Air);
    assert_eq!(g.block_at(10, 10, Biome::Plains, false), BlockType::Grass);
    assert_eq!(g.block_at(90, 90, Biome::Forest, false), BlockType::Stone);
    assert_eq!(g.block_at(10, 10, Biome::Desert, false), BlockType::Sand);
    assert_eq!(g.block_at(7, 10, Biome::Plains, false), BlockType::Dirt);
    assert_eq!(g.block_at(7, 10, Biome::Desert, false), BlockType::Sand);
    assert_eq!(g.block_at(6, 10, Biome::Plains, false), BlockType::Stone);
    assert_eq!(g.block_at(6, 10, Biome::Plains, true), BlockType::Air);
    assert_eq!(g.block_at(5, 10, Biome::Plains, true), BlockType::Stone);
    assert_eq!(g.block_at(i32::MIN + 1, i32::MIN, Biome::Plains, true), BlockType::Bedrock);
}

#[test]
fn tree_hash_is_deterministic() {
    let g = TerrainGenerator::new(42);
    assert!(!g.should_place_tree(0, 0));
    assert!(g.should_place_tree(4, 16));
    assert!(g.should_place_tree(-40, 24));
    assert!(!TerrainGenerator::new(43).should_place_tree(4, 16));
}

#[test]
fn layered_chunk_without_trees() {
    let g = TerrainGenerator::new(42);
    let c = g.generate_chunk(&ChunkCoord::new(0, 0, 0), &flat(10, Biome::Desert));
    assert_eq!(c.get(0, 10, 0), BlockType::Sand);
    assert_eq!(c.get(4, 11, 16), BlockType::Air);
    assert_eq!(c.get(31, 7, 31), BlockType::Sand);
    assert_eq!(c.get(31, 6, 31), BlockType::Stone);
    let below = g.generate_chunk(&ChunkCoord::new(0, -1, 0), &flat(10, Biome::Plains));
    assert_eq!(below.get(3, 31, 3), BlockType::Bedrock);
}

#[test]
fn one_tree_on_the_only_green_column() {
    let g = TerrainGenerator::new(42);
    let mut s = flat(10, Biome::Desert);
    s.biome[4 * 32 + 16] = Biome::Plains;
    let c = g.generate_chunk(&ChunkCoord::new(0, 0, 0), &s);
    assert_eq!(c.get(4, 10, 16), BlockType::Grass);
    for y in 11..15 {
        assert_eq!(c.get(4, y, 16), BlockType::Wood);
    }
    assert_eq!(c.get(4, 15, 16), BlockType::Leaves);
    assert_eq!(c.get(4, 16, 16), BlockType::Air);
    assert_eq!(c.get(3, 13, 16), BlockType::Leaves);
    assert_eq!(c.get(6, 15, 16), BlockType::Leaves);
    assert_eq!(c.get(2, 13, 14), BlockType::Air);
    assert_eq!(c.get(6, 14, 18), BlockType::Air);
    assert_eq!(c.get(5, 14, 18), BlockType::Leaves);
}

#[test]
fn caves_open_only_above_height_five() {
    let g = TerrainGenerator::new(1);
    let mut s = flat(20, Biome::Forest);
    s.cave = vec![true; CHUNK_VOLUME];
    let c = g.generate_chunk(&ChunkCoord::new(5, 0, 5), &s);
    assert_eq!(c.get(0, 5, 0), BlockType::Stone);
    assert_eq!(c.get(0, 6, 0), BlockType::Air);
    assert_eq!(c.get(0, 16, 0), BlockType::Air);
    assert_eq!(c.get(0, 17, 0), BlockType::Dirt);
    assert_eq!(c.get(0, 20, 0), BlockType::Grass);
}
