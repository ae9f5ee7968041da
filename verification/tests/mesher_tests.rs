use voxel_sandbox::block::BlockType;
use voxel_sandbox::chunk_data::ChunkData;
use voxel_sandbox::coords::{Face, IVec3, UVec3};
use voxel_sandbox::mesher::{block_tile, get_block_at, mesh_indices, visible_faces, FaceQuad};
use voxel_sandbox::world::ChunkDataStore;

fn v(x: i32, y: i32, z: i32) -> IVec3 {
    IVec3 { x, y, z }
}

const FACES: [Face; 6] = [Face::PosX, Face::NegX, Face::PosY, Face::NegY, Face::PosZ, Face::NegZ];

#[test]
fn lone_block_shows_six_faces_in_order() {
    let mut c = ChunkData::new_empty();
    c.set(5, 6, 7, BlockType::Stone);
    let store = ChunkDataStore::new();
    let faces = visible_faces(&c, &store, v(0, 0, 0));
    assert_eq!(faces.len(), 6);
    for i in 0..6 {
        assert_eq!(
            faces[i],
            FaceQuad { pos: UVec3 { x: 5, y: 6, z: 7 }, face: FACES[i], block: BlockType::Stone }
        );
    }
}

#[test]
fn shared_face_between_opaque_blocks_is_hidden() {
    let mut c = ChunkData::new_empty();
    c.set(5, 5, 5, BlockType::Stone);
    c.set(6, 5, 5, BlockType::Dirt);
    let faces = visible_faces(&c, &ChunkDataStore::new(), v(0, 0, 0));
    assert_eq!(faces.len(), 10);
    assert!(!faces.iter().any(|f| f.pos.x == 5 && f.face == Face::PosX));
    assert!(!faces.iter().any(|f| f.pos.x == 6 && f.face == Face::NegX));
    assert_eq!(faces[0].pos, UVec3 { x: 5, y: 5, z: 5 });
    assert_eq!(faces[5].pos, UVec3 { x: 6, y: 5, z: 5 });
}

#[test]
fn glass_lets_the_face_behind_show() {
    let mut c = ChunkData::new_empty();
    c.set(5, 5, 5, BlockType::Stone);
    c.set(6, 5, 5, BlockType::Glass);
    let faces = visible_faces(&c, &ChunkDataStore::new(), v(0, 0, 0));
    assert_eq!(faces.len(), 11);
    assert!(faces.iter().any(|f| f.pos.x == 5 && f.face == Face::PosX));
    assert!(!faces.iter().any(|f| f.pos.x == 6 && f.face == Face::NegX));
}

#[test]
fn faces_toward_loaded_neighbour_chunk_are_culled() {
    let mut c = ChunkData::new_empty();
    c.set(31, 0, 0, BlockType::Stone);
    let mut store = ChunkDataStore::new();
    let mut n = ChunkData::new_empty();
    n.set(0, 0, 0, BlockType::Stone);
    store.insert(v(1, 0, 0), n);
    let faces = visible_faces(&c, &store, v(0, 0, 0));
    assert_eq!(faces.len(), 5);
    assert!(!faces.iter().any(|f| f.face == Face::PosX));
    let empty_store = ChunkDataStore::new();
    assert_eq!(visible_faces(&c, &empty_store, v(0, 0, 0)).len(), 6);
}

#[test]
fn neighbour_lookup() {
    let c = ChunkData::new_empty();
    let mut store = ChunkDataStore::new();
    let mut n = ChunkData::new_empty();
    n.set(31, 4, 0, BlockType::Sand);
    store.insert(v(-1, 0, 1), n);
    assert_eq!(get_block_at(&c, &store, v(0, 0, 0), v(-1, 4, 32)), BlockType::Sand);
    assert_eq!(get_block_at(&c, &store, v(0, 0, 0), v(-1, 4, 31)), BlockType::Air);
}

#[test]
fn empty_chunk_has_no_faces() {
    assert!(visible_faces(&ChunkData::new_empty(), &ChunkDataStore::new(), v(3, -2, 1)).is_empty());
}

#[test]
fn tiles() {
    assert_eq!(block_tile(BlockType::Grass, Face::PosY), (0, 0));
    assert_eq!(block_tile(BlockType::Grass, Face::NegY), (2, 0));
    assert_eq!(block_tile(BlockType::Grass, Face::PosX), (3, 0));
    assert_eq!(block_tile(BlockType::Wood, Face::NegY), (5, 1));
    assert_eq!(block_tile(BlockType::Wood, Face::NegZ), (4, 1));
    assert_eq!(block_tile(BlockType::Bedrock, Face::PosX), (1, 1));
    assert_eq!(block_tile(BlockType::Leaves, Face::PosX), (4, 3));
    assert_eq!(block_tile(BlockType::Glass, Face::PosX), (1, 3));
}

#[test]
fn indices_of_two_quads() {
    assert_eq!(mesh_indices(2), vec![0, 1, 2, 0, 2, 3, 4, 5, 6, 4, 6, 7]);
    assert!(mesh_indices(0).is_empty());
}
