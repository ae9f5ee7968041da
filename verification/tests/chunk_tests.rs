use voxel_sandbox::block::BlockType;
use voxel_sandbox::chunk_data::ChunkData;
use voxel_sandbox::coords::{chunk_coords, ChunkCoord, Face, IVec3, UVec3, CHUNK_VOLUME};
use voxel_sandbox::keys::{key, pos_of};

fn v(x: i32, y: i32, z: i32) -> IVec3 {
    IVec3 { x, y, z }
}

#[test]
fn new_chunk_is_empty_air() {
    let c = ChunkData::new_empty();
    assert!(c.is_empty());
    assert_eq!(c.raw().len(), CHUNK_VOLUME);
    assert_eq!(c.get(31, 31, 31), BlockType::Air);
}

#[test]
fn index_layout_is_y_then_z_then_x() {
    assert_eq!(ChunkData::index(0, 0, 0), 0);
    assert_eq!(ChunkData::index(1, 0, 0), 1);
    assert_eq!(ChunkData::index(0, 0, 1), 32);
    assert_eq!(ChunkData::index(0, 1, 0), 1024);
    assert_eq!(ChunkData::index(31, 31, 31), 32767);
}

#[test]
fn set_then_get() {
    let mut c = ChunkData::new_empty();
    c.set(3, 4, 5, BlockType::Stone);
    assert_eq!(c.get(3, 4, 5), BlockType::Stone);
    assert_eq!(c.get(4, 4, 5), BlockType::Air);
    assert!(!c.is_empty());
    assert_eq!(c.raw()[ChunkData::index(3, 4, 5)], 1);
    c.set(3, 4, 5, BlockType::Air);
    assert!(c.is_empty());
}

#[test]
fn get_ivec_outside_is_air() {
    let mut c = ChunkData::new_empty();
    c.set(0, 0, 0, BlockType::Dirt);
    assert_eq!(c.get_ivec(v(0, 0, 0)), BlockType::Dirt);
    assert_eq!(c.get_ivec(v(-1, 0, 0)), BlockType::Air);
    assert_eq!(c.get_ivec(v(0, 32, 0)), BlockType::Air);
}

#[test]
fn from_raw_checks_length() {
    assert!(ChunkData::from_raw(vec![0u8; 10]).is_none());
    let mut bytes = vec![0u8; CHUNK_VOLUME];
    bytes[1] = 4;
    bytes[2] = 99;
    let c = ChunkData::from_raw(bytes).unwrap();
    assert_eq!(c.get(1, 0, 0), BlockType::Sand);
    assert_eq!(c.get(2, 0, 0), BlockType::Air);
}

#[test]
fn splitting_negative_positions() {
    let (c, l) = chunk_coords(v(-1, 32, 65));
    assert_eq!(c, v(-1, 1, 2));
    assert_eq!(l, v(31, 0, 1));
    let (c, l) = chunk_coords(v(-32, -33, 0));
    assert_eq!(c, v(-1, -2, 0));
    assert_eq!(l, v(0, 31, 0));
    let (c, l) = chunk_coords(v(i32::MIN, i32::MAX, 0));
    assert_eq!(c, v(-67108864, 67108863, 0));
    assert_eq!(l, v(0, 31, 0));
}

#[test]
fn local_and_world_conversions() {
    assert_eq!(ChunkCoord::world_to_local(v(-1, 33, 5)), UVec3 { x: 31, y: 1, z: 5 });
    let c = ChunkCoord::new(-1, 1, 0);
    assert_eq!(c.local_to_world(UVec3 { x: 31, y: 1, z: 5 }), v(-1, 33, 5));
    let n = ChunkCoord::new(2, 3, 4).neighbors();
    assert_eq!(n[0].0, v(3, 3, 4));
    assert_eq!(n[1].0, v(1, 3, 4));
    assert_eq!(n[2].0, v(2, 4, 4));
    assert_eq!(n[3].0, v(2, 2, 4));
    assert_eq!(n[4].0, v(2, 3, 5));
    assert_eq!(n[5].0, v(2, 3, 3));
}

#[test]
fn face_normals_in_order() {
    let all = Face::all();
    let expected = [v(1, 0, 0), v(-1, 0, 0), v(0, 1, 0), v(0, -1, 0), v(0, 0, 1), v(0, 0, -1)];
    for i in 0..6 {
        assert_eq!(all[i], Face::from_index(i));
        assert_eq!(all[i].normal(), expected[i]);
    }
    assert_eq!(v(1, 2, 3).add(Face::NegY.normal()), v(1, 1, 3));
}

#[test]
fn keys_round_trip_and_differ() {
    for p in [v(0, 0, 0), v(-1, -1, -1), v(i32::MIN, i32::MAX, 7), v(5, -3, 1 << 20)] {
        assert_eq!(pos_of(key(p)), p);
    }
    assert_ne!(key(v(1, 0, 0)), key(v(0, 1, 0)));
    assert_ne!(key(v(0, 0, -1)), key(v(0, -1, 0)));
}
