use voxel_sandbox::block::BlockType;
use voxel_sandbox::chunk_data::ChunkData;
use voxel_sandbox::coords::IVec3;
use voxel_sandbox::edit::{get_block, set_block};
use voxel_sandbox::interaction::{handle_block_input, SelectedBlock, TargetBlock};
use voxel_sandbox::inventory::{handle_hotbar_input, hotbar_block, sync_selected_block, Hotbar};
use voxel_sandbox::meshing::MeshingQueue;
use voxel_sandbox::world::ChunkDataStore;

fn v(x: i32, y: i32, z: i32) -> IVec3 {
    IVec3 { x, y, z }
}

fn world_with_stone() -> (ChunkDataStore, MeshingQueue) {
    let mut s = ChunkDataStore::new();
    s.insert(v(0, 0, 0), ChunkData::new_empty());
    let mut q = MeshingQueue::new();
    set_block(v(5, 5, 5), BlockType::Stone, &mut s, &mut q);
    while q.pop_front().is_some() {}
    (s, q)
}

fn target() -> TargetBlock {
    TargetBlock { pos: Some(v(5, 5, 5)), normal: Some(v(0, 1, 0)) }
}

#[test]
fn left_click_breaks_target() {
    let (mut s, mut q) = world_with_stone();
    handle_block_input(true, &target(), &SelectedBlock::default(), true, false, false, &mut s, &mut q);
    assert_eq!(get_block(v(5, 5, 5), &s), BlockType::Air);
    assert_eq!(q.pop_front(), Some(v(0, 0, 0)));
}

#[test]
fn right_click_places_on_face() {
    let (mut s, mut q) = world_with_stone();
    assert_eq!(target().place_position(), Some(v(5, 6, 5)));
    handle_block_input(true, &target(), &SelectedBlock(BlockType::Glass), false, true, false, &mut s, &mut q);
    assert_eq!(get_block(v(5, 6, 5), &s), BlockType::Glass);
    assert_eq!(get_block(v(5, 5, 5), &s), BlockType::Stone);
}

#[test]
fn place_blocked_or_cursor_free_does_nothing() {
    let (mut s, mut q) = world_with_stone();
    handle_block_input(true, &target(), &SelectedBlock(BlockType::Glass), false, true, true, &mut s, &mut q);
    assert_eq!(get_block(v(5, 6, 5), &s), BlockType::Air);
    handle_block_input(false, &target(), &SelectedBlock(BlockType::Glass), true, true, false, &mut s, &mut q);
    assert_eq!(get_block(v(5, 5, 5), &s), BlockType::Stone);
    handle_block_input(true, &TargetBlock::default(), &SelectedBlock(BlockType::Glass), true, true, false, &mut s, &mut q);
    assert!(q.is_empty());
    let no_normal = TargetBlock { pos: Some(v(5, 5, 5)), normal: None };
    assert_eq!(no_normal.place_position(), None);
    handle_block_input(true, &no_normal, &SelectedBlock(BlockType::Glass), false, true, false, &mut s, &mut q);
    assert_eq!(get_block(v(5, 5, 5), &s), BlockType::Stone);
}

#[test]
fn both_clicks_break_then_place() {
    let (mut s, mut q) = world_with_stone();
    handle_block_input(true, &target(), &SelectedBlock(BlockType::Planks), true, true, false, &mut s, &mut q);
    assert_eq!(get_block(v(5, 5, 5), &s), BlockType::Air);
    assert_eq!(get_block(v(5, 6, 5), &s), BlockType::Planks);
}

#[test]
fn hotbar_slots() {
    let expected = [
        BlockType::Stone,
        BlockType::Dirt,
        BlockType::Grass,
        BlockType::Sand,
        BlockType::Wood,
        BlockType::Cobblestone,
        BlockType::Planks,
        BlockType::Glass,
        BlockType::Leaves,
    ];
    for i in 0..9 {
        assert_eq!(hotbar_block(i), expected[i]);
    }
}

#[test]
fn digit_keys_last_wins_then_scroll_wraps() {
    let mut h = Hotbar::default();
    let mut pressed = [false; 9];
    pressed[2] = true;
    pressed[6] = true;
    handle_hotbar_input(&mut h, &pressed, &vec![]);
    assert_eq!(h.selected, 6);
    handle_hotbar_input(&mut h, &[false; 9], &vec![true, true, true]);
    assert_eq!(h.selected, 0);
    handle_hotbar_input(&mut h, &[false; 9], &vec![false]);
    assert_eq!(h.selected, 8);
    let mut sel = SelectedBlock::default();
    assert_eq!(sel.0, BlockType::Stone);
    sync_selected_block(&h, &mut sel);
    assert_eq!(sel.0, BlockType::Leaves);
}

#[test]
fn out_of_range_slot_scrolls_back_into_range() {
    let mut h = Hotbar { selected: 100 };
    handle_hotbar_input(&mut h, &[false; 9], &vec![true]);
    assert_eq!(h.selected, 2);
}
