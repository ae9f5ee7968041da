use std::collections::VecDeque;
use voxel_sandbox::chunk_data::ChunkData;
use voxel_sandbox::chunk_manager::{
    insert_generated_chunk, next_queued_chunk, sync_chunk_entities, update_loaded_chunks, GenerationQueue,
    LastPlayerChunk,
};
use voxel_sandbox::coords::IVec3;
use voxel_sandbox::meshing::MeshingQueue;
use voxel_sandbox::world::{ChunkDataStore, ChunkMap};

fn v(x: i32, y: i32, z: i32) -> IVec3 {
    IVec3 { x, y, z }
}

#[test]
fn first_update_queues_whole_range_nearest_first() {
    let mut map = ChunkMap::new();
    let mut store = ChunkDataStore::new();
    let mut gq = GenerationQueue(VecDeque::new());
    let mut last = LastPlayerChunk(None);
    update_loaded_chunks(v(0, 0, 0), &mut map, &mut store, &mut gq, &mut last);
    assert_eq!(last.0, Some(v(0, 0, 0)));
    assert_eq!(gq.0.len(), 13 * 13 * 7);
    let q: Vec<IVec3> = gq.0.iter().cloned().collect();
    assert_eq!(q[0], v(0, 0, 0));
    assert_eq!(
        q[1..7].to_vec(),
        vec![v(-1, 0, 0), v(0, 0, -1), v(0, -1, 0), v(0, 1, 0), v(0, 0, 1), v(1, 0, 0)]
    );
    assert_eq!(q[q.len() - 1], v(6, 3, 6));
    let d2 = |c: &IVec3| c.x * c.x + c.y * c.y + c.z * c.z;
    for w in q.windows(2) {
        assert!(d2(&w[0]) <= d2(&w[1]));
    }
}

#[test]
fn same_chunk_changes_nothing() {
    let mut map = ChunkMap::new();
    let mut store = ChunkDataStore::new();
    let mut gq = GenerationQueue(VecDeque::new());
    let mut last = LastPlayerChunk(Some(v(2, 0, 2)));
    update_loaded_chunks(v(2, 0, 2), &mut map, &mut store, &mut gq, &mut last);
    assert!(gq.0.is_empty());
}

#[test]
fn loaded_chunks_are_not_queued_and_far_ones_dropped() {
    let mut map = ChunkMap::new();
    let mut store = ChunkDataStore::new();
    store.insert(v(0, 0, 0), ChunkData::new_empty());
    store.insert(v(9, 0, 0), ChunkData::new_empty());
    store.insert(v(0, 10, 0), ChunkData::new_empty());
    store.insert(v(0, 11, 0), ChunkData::new_empty());
    map.insert(v(1, 0, 0), 77);
    map.insert(v(-9, 0, 0), 78);
    let mut gq = GenerationQueue(VecDeque::new());
    let mut last = LastPlayerChunk(Some(v(5, 5, 5)));
    update_loaded_chunks(v(0, 0, 0), &mut map, &mut store, &mut gq, &mut last);
    assert!(store.contains_key(v(0, 0, 0)));
    assert!(!store.contains_key(v(9, 0, 0)));
    assert!(store.contains_key(v(0, 10, 0)));
    assert!(!store.contains_key(v(0, 11, 0)));
    assert!(map.contains_key(v(1, 0, 0)));
    assert!(!map.contains_key(v(-9, 0, 0)));
    assert_eq!(gq.0.len(), 13 * 13 * 7 - 2);
    assert_eq!(gq.0[0], v(-1, 0, 0));
    assert!(!gq.0.contains(&v(1, 0, 0)));
}

#[test]
fn generation_takes_unloaded_chunks_within_budget() {
    let mut store = ChunkDataStore::new();
    store.insert(v(1, 0, 0), ChunkData::new_empty());
    let mut gq = GenerationQueue(VecDeque::from(vec![v(0, 0, 0), v(1, 0, 0), v(2, 0, 0), v(3, 0, 0)]));
    assert_eq!(next_queued_chunk(&mut gq, &store, 0), Some(v(0, 0, 0)));
    assert_eq!(next_queued_chunk(&mut gq, &store, 1), Some(v(2, 0, 0)));
    assert_eq!(next_queued_chunk(&mut gq, &store, 4), None);
    assert_eq!(gq.0.len(), 1);
    assert_eq!(next_queued_chunk(&mut gq, &store, 0), Some(v(3, 0, 0)));
    assert!(gq.0.is_empty());
    assert_eq!(next_queued_chunk(&mut gq, &store, 0), None);
}

#[test]
fn generated_chunk_queues_itself_and_loaded_neighbours() {
    let mut store = ChunkDataStore::new();
    store.insert(v(0, 1, 0), ChunkData::new_empty());
    store.insert(v(-1, 0, 0), ChunkData::new_empty());
    store.insert(v(5, 5, 5), ChunkData::new_empty());
    let mut mq = MeshingQueue::new();
    insert_generated_chunk(&mut store, &mut mq, v(0, 0, 0), ChunkData::new_empty());
    assert!(store.contains_key(v(0, 0, 0)));
    assert_eq!(mq.pop_front(), Some(v(0, 0, 0)));
    assert_eq!(mq.pop_front(), Some(v(-1, 0, 0)));
    assert_eq!(mq.pop_front(), Some(v(0, 1, 0)));
    assert_eq!(mq.pop_front(), None);
}

#[test]
fn entities_of_unloaded_chunks_are_removed() {
    let mut store = ChunkDataStore::new();
    store.insert(v(0, 0, 0), ChunkData::new_empty());
    let mut map = ChunkMap::new();
    map.insert(v(0, 0, 0), 7);
    map.insert(v(1, 0, 0), 8);
    map.insert(v(2, 0, 0), 9);
    let mut removed = sync_chunk_entities(&mut map, &store);
    removed.sort_by_key(|(c, _)| c.x);
    assert_eq!(removed, vec![(v(1, 0, 0), 8), (v(2, 0, 0), 9)]);
    assert_eq!(map.get(v(0, 0, 0)), Some(7));
    assert!(!map.contains_key(v(1, 0, 0)));
}
