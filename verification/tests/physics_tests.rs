use voxel_sandbox::block::BlockType;
use voxel_sandbox::chunk_data::ChunkData;
use voxel_sandbox::coords::IVec3;
use voxel_sandbox::edit::{get_block, set_block};
use voxel_sandbox::meshing::MeshingQueue;
use voxel_sandbox::physics::{sand_gravity, sand_gravity_step, FallingSandQueue};
use voxel_sandbox::world::{ChunkDataStore, PosSet};

fn v(x: i32, y: i32, z: i32) -> IVec3 {
    IVec3 { x, y, z }
}

fn world() -> (ChunkDataStore, MeshingQueue) {
    let mut s = ChunkDataStore::new();
    s.insert(v(0, 0, 0), ChunkData::new_empty());
    (s, MeshingQueue::new())
}

#[test]
fn sand_falls_one_block() {
    let (mut s, mut q) = world();
    set_block(v(5, 10, 5), BlockType::Sand, &mut s, &mut q);
    let next = sand_gravity_step(&vec![v(5, 10, 5)], &mut s, &mut q);
    assert_eq!(get_block(v(5, 10, 5), &s), BlockType::Air);
    assert_eq!(get_block(v(5, 9, 5), &s), BlockType::Sand);
    assert_eq!(next, vec![v(5, 11, 5), v(5, 9, 5)]);
}

#[test]
fn stacked_sand_falls_in_order() {
    let (mut s, mut q) = world();
    set_block(v(5, 10, 5), BlockType::Sand, &mut s, &mut q);
    set_block(v(5, 11, 5), BlockType::Sand, &mut s, &mut q);
    let next = sand_gravity_step(&vec![v(5, 10, 5), v(5, 11, 5)], &mut s, &mut q);
    assert_eq!(get_block(v(5, 9, 5), &s), BlockType::Sand);
    assert_eq!(get_block(v(5, 10, 5), &s), BlockType::Sand);
    assert_eq!(get_block(v(5, 11, 5), &s), BlockType::Air);
    assert_eq!(next, vec![v(5, 11, 5), v(5, 9, 5), v(5, 12, 5), v(5, 10, 5)]);
}

#[test]
fn sand_on_ground_or_over_unloaded_chunk_stays() {
    let (mut s, mut q) = world();
    set_block(v(5, 0, 5), BlockType::Sand, &mut s, &mut q);
    set_block(v(6, 3, 5), BlockType::Sand, &mut s, &mut q);
    set_block(v(6, 2, 5), BlockType::Stone, &mut s, &mut q);
    let next = sand_gravity_step(&vec![v(5, 0, 5), v(6, 3, 5), v(7, 7, 7), v(99, 0, 0)], &mut s, &mut q);
    assert!(next.is_empty());
    assert_eq!(get_block(v(5, 0, 5), &s), BlockType::Sand);
    assert_eq!(get_block(v(6, 3, 5), &s), BlockType::Sand);
}

#[test]
fn falling_queue_round() {
    let (mut s, mut q) = world();
    set_block(v(1, 5, 1), BlockType::Sand, &mut s, &mut q);
    let mut fq = FallingSandQueue(PosSet::new());
    fq.0.insert(v(1, 5, 1));
    fq.0.insert(v(1, 5, 1));
    fq.0.insert(v(2, 2, 2));
    sand_gravity(&mut fq, &mut s, &mut q);
    assert_eq!(get_block(v(1, 4, 1), &s), BlockType::Sand);
    assert!(fq.0.contains(v(1, 6, 1)));
    assert!(fq.0.contains(v(1, 4, 1)));
    assert!(!fq.0.contains(v(2, 2, 2)));
    let mut rest = fq.0.take_all();
    rest.sort_by_key(|p| p.y);
    assert_eq!(rest, vec![v(1, 4, 1), v(1, 6, 1)]);
    assert!(fq.0.take_all().is_empty());
}

#[test]
fn sand_falls_at_most_one_block_per_tick() {
    let (mut s, mut q) = world();
    set_block(v(5, 10, 5), BlockType::Sand, &mut s, &mut q);
    let next = sand_gravity_step(&vec![v(5, 10, 5), v(5, 9, 5)], &mut s, &mut q);
    assert_eq!(get_block(v(5, 10, 5), &s), BlockType::Air);
    assert_eq!(get_block(v(5, 9, 5), &s), BlockType::Sand);
    assert_eq!(get_block(v(5, 8, 5), &s), BlockType::Air);
    assert_eq!(next, vec![v(5, 11, 5), v(5, 9, 5)]);
}
