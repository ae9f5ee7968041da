use voxel_sandbox::block::BlockType;
use voxel_sandbox::chunk_data::ChunkData;
use voxel_sandbox::coords::IVec3;
use voxel_sandbox::edit::{any_solid_in_box, get_block, is_chunk_loaded, is_solid, is_targetable, set_block};
use voxel_sandbox::meshing::{take_mesh_batch, MeshingQueue};
use voxel_sandbox::world::{ChunkDataStore, ChunkMap};

fn v(x: i32, y: i32, z: i32) -> IVec3 {
    IVec3 { x, y, z }
}

fn store_with(chunks: &[IVec3]) -> ChunkDataStore {
    let mut s = ChunkDataStore::new();
    for c in chunks {
        s.insert(*c, ChunkData::new_empty());
    }
    s
}

#[test]
fn store_insert_get_remove() {
    let mut s = store_with(&[v(0, 0, 0), v(-1, 2, 3)]);
    assert!(s.contains_key(v(-1, 2, 3)));
    assert!(!s.contains_key(v(1, 2, 3)));
    assert!(s.get(v(0, 0, 0)).unwrap().is_empty());
    let mut coords = s.coords();
    coords.sort_by_key(|c| (c.x, c.y, c.z));
    assert_eq!(coords, vec![v(-1, 2, 3), v(0, 0, 0)]);
    assert!(s.remove(v(0, 0, 0)).is_some());
    assert!(s.remove(v(0, 0, 0)).is_none());
    assert_eq!(s.coords(), vec![v(-1, 2, 3)]);
}

#[test]
fn set_local_only_in_loaded_chunks() {
    let mut s = store_with(&[v(0, 0, 0)]);
    assert!(s.set_local(v(0, 0, 0), 1, 2, 3, BlockType::Wood));
    assert_eq!(s.get(v(0, 0, 0)).unwrap().get(1, 2, 3), BlockType::Wood);
    assert!(!s.set_local(v(5, 0, 0), 1, 2, 3, BlockType::Wood));
    assert!(!s.contains_key(v(5, 0, 0)));
}

#[test]
fn chunk_map_entities() {
    let mut m = ChunkMap::new();
    m.insert(v(1, 1, 1), 42);
    m.insert(v(1, 1, 1), 43);
    assert_eq!(m.get(v(1, 1, 1)), Some(43));
    assert_eq!(m.get(v(0, 1, 1)), None);
    assert_eq!(m.remove(v(1, 1, 1)), Some(43));
    assert!(!m.contains_key(v(1, 1, 1)));
}

#[test]
fn world_blocks_across_chunks() {
    let mut s = store_with(&[v(0, 0, 0), v(-1, 0, 0)]);
    let mut q = MeshingQueue::new();
    set_block(v(-1, 5, 5), BlockType::Stone, &mut s, &mut q);
    assert_eq!(s.get(v(-1, 0, 0)).unwrap().get(31, 5, 5), BlockType::Stone);
    assert_eq!(get_block(v(-1, 5, 5), &s), BlockType::Stone);
    assert_eq!(get_block(v(0, 5, 5), &s), BlockType::Air);
    assert_eq!(get_block(v(100, 5, 5), &s), BlockType::Air);
    assert!(is_chunk_loaded(v(31, 31, 31), &s));
    assert!(!is_chunk_loaded(v(32, 0, 0), &s));
}

#[test]
fn write_into_unloaded_chunk_is_ignored() {
    let mut s = store_with(&[v(0, 0, 0)]);
    let mut q = MeshingQueue::new();
    set_block(v(40, 0, 0), BlockType::Stone, &mut s, &mut q);
    assert_eq!(get_block(v(40, 0, 0), &s), BlockType::Air);
    assert!(q.is_empty());
}

#[test]
fn border_edit_remeshes_neighbours_first() {
    let mut s = store_with(&[v(0, 0, 0)]);
    let mut q = MeshingQueue::new();
    q.push_back(v(7, 7, 7));
    set_block(v(0, 31, 5), BlockType::Dirt, &mut s, &mut q);
    assert_eq!(q.pop_front(), Some(v(0, 1, 0)));
    assert_eq!(q.pop_front(), Some(v(-1, 0, 0)));
    assert_eq!(q.pop_front(), Some(v(0, 0, 0)));
    assert_eq!(q.pop_front(), Some(v(7, 7, 7)));
    assert_eq!(q.pop_front(), None);
}

#[test]
fn inner_edit_remeshes_only_its_chunk() {
    let mut s = store_with(&[v(0, 0, 0)]);
    let mut q = MeshingQueue::new();
    set_block(v(5, 5, 5), BlockType::Dirt, &mut s, &mut q);
    assert_eq!(q.pop_front(), Some(v(0, 0, 0)));
    assert!(q.is_empty());
    assert_eq!(q.pop_front(), None);
}

#[test]
fn solidity_and_targets() {
    let mut s = store_with(&[v(0, 0, 0)]);
    let mut q = MeshingQueue::new();
    set_block(v(1, 1, 1), BlockType::Leaves, &mut s, &mut q);
    set_block(v(2, 1, 1), BlockType::Stone, &mut s, &mut q);
    assert!(!is_solid(v(1, 1, 1), &s));
    assert!(is_targetable(v(1, 1, 1), &s));
    assert!(is_solid(v(2, 1, 1), &s));
    assert!(!is_targetable(v(3, 1, 1), &s));
    assert!(!any_solid_in_box(&s, v(0, 0, 0), v(1, 2, 2)));
    assert!(any_solid_in_box(&s, v(0, 0, 0), v(2, 2, 2)));
    assert!(!any_solid_in_box(&s, v(3, 0, 0), v(2, 2, 2)));
}

#[test]
fn meshing_queue_deduplicates() {
    let mut q = MeshingQueue::new();
    q.push_back(v(1, 0, 0));
    q.push_back(v(2, 0, 0));
    q.push_back(v(1, 0, 0));
    q.push_front(v(2, 0, 0));
    q.push_front(v(3, 0, 0));
    assert_eq!(q.pop_front(), Some(v(3, 0, 0)));
    assert_eq!(q.pop_front(), Some(v(1, 0, 0)));
    assert_eq!(q.pop_front(), Some(v(2, 0, 0)));
    assert_eq!(q.pop_front(), None);
    assert!(q.is_empty());
}

#[test]
fn reprioritize_moves_to_front_and_skips_stale_entry() {
    let mut q = MeshingQueue::new();
    q.push_back(v(1, 0, 0));
    q.push_back(v(2, 0, 0));
    q.reprioritize(v(2, 0, 0));
    assert_eq!(q.pop_front(), Some(v(2, 0, 0)));
    assert_eq!(q.pop_front(), Some(v(1, 0, 0)));
    assert!(q.is_empty());
    assert_eq!(q.pop_front(), None);
}

#[test]
fn coordinate_pushed_again_after_reprioritize_goes_last() {
    let mut q = MeshingQueue::new();
    q.push_back(v(1, 0, 0));
    q.push_back(v(3, 0, 0));
    q.reprioritize(v(3, 0, 0));
    assert_eq!(q.pop_front(), Some(v(3, 0, 0)));
    q.push_back(v(4, 0, 0));
    q.push_back(v(3, 0, 0));
    assert_eq!(q.pop_front(), Some(v(1, 0, 0)));
    assert_eq!(q.pop_front(), Some(v(4, 0, 0)));
    assert_eq!(q.pop_front(), Some(v(3, 0, 0)));
    assert_eq!(q.pop_front(), None);
}

#[test]
fn mesh_batch_skips_unloaded_and_respects_budget() {
    let mut chunks = Vec::new();
    for i in 0..10 {
        chunks.push(v(i, 0, 0));
    }
    let s = store_with(&chunks);
    let mut q = MeshingQueue::new();
    q.push_back(v(100, 0, 0));
    for c in &chunks {
        q.push_back(*c);
    }
    let batch = take_mesh_batch(&mut q, &s);
    assert_eq!(batch, chunks[0..8].to_vec());
    assert!(!q.is_empty());
    let batch = take_mesh_batch(&mut q, &s);
    assert_eq!(batch, chunks[8..10].to_vec());
    assert!(q.is_empty());
    assert!(take_mesh_batch(&mut q, &s).is_empty());
}
