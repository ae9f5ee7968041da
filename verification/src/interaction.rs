//! Block breaking and placing at the targeted block.
use vstd::prelude::*;
use crate::block::BlockType;
use crate::coords::{IVec3, add_spec, add_fits};
use crate::world::{ChunkDataStore, cells_of};
use crate::edit::{loaded_at, write_cells, remesh_list, reprioritize_all, set_block};
use crate::meshing::MeshingQueue;

verus! {

/// The block the player looks at, and the normal of the face the ray entered through.
pub struct TargetBlock {
    pub pos: Option<IVec3>,
    pub normal: Option<IVec3>,
}

/// The block kind placed on a right click.
pub struct SelectedBlock(pub BlockType);

impl Default for TargetBlock {
    fn default() -> (r: Self)
        ensures
            r.pos is None,
            r.normal is None,
    {
        TargetBlock { pos: None, normal: None }
    }
}

impl Default for SelectedBlock {
    fn default() -> (r: Self)
        ensures
            r.0 == BlockType::Stone,
    {
        SelectedBlock(BlockType::Stone)
    }
}

/// The world and meshing queue after `set_block(p, b)`.
pub open spec fn edit_effect(
    cells: Map<IVec3, Seq<u8>>,
    q: Seq<IVec3>,
    p: IVec3,
    b: BlockType,
) -> (Map<IVec3, Seq<u8>>, Seq<IVec3>) {
    (write_cells(cells, p, b), if loaded_at(cells, p) {
        reprioritize_all(q, remesh_list(p))
    } else {
        q
    })
}

/// True when the target's place position (block plus face normal) fits in `i32`.
pub open spec fn target_fits(target: TargetBlock) -> bool {
    (target.pos is Some && target.normal is Some) ==> add_fits(target.pos->0, target.normal->0)
}

impl TargetBlock {
    /// Where a right click places a block: next to the target, across the face
    /// the ray entered through.
    pub fn place_position(&self) -> (r: Option<IVec3>)
        requires
            target_fits(*self),
        ensures
            r == (match (self.pos, self.normal) {
                (Some(p), Some(n)) => Some(add_spec(p, n)),
                _ => None,
            }),
    {
        match (self.pos, self.normal) {
            (Some(p), Some(n)) => Some(p.add(n)),
            _ => None,
        }
    }
}

/// What the clicks of one frame do: nothing unless the cursor is locked and a
/// block is targeted; a left click breaks the target (writes air); a right
/// click then places the selected block next to the target, unless there is no
/// face normal or `place_blocked` (the player's body would overlap it).
pub open spec fn block_input_effect(
    cells: Map<IVec3, Seq<u8>>,
    q: Seq<IVec3>,
    cursor_locked: bool,
    target: TargetBlock,
    selected: BlockType,
    left: bool,
    right: bool,
    place_blocked: bool,
) -> (Map<IVec3, Seq<u8>>, Seq<IVec3>) {
    if !cursor_locked || target.pos is None {
        (cells, q)
    } else {
        let pos = target.pos->0;
        let after_left = if left {
            edit_effect(cells, q, pos, BlockType::Air)
        } else {
            (cells, q)
        };
        if right && target.normal is Some && !place_blocked {
            edit_effect(after_left.0, after_left.1, add_spec(pos, target.normal->0), selected)
        } else {
            after_left
        }
    }
}

/// Applies the clicks of one frame to the world (see `block_input_effect`).
pub fn handle_block_input(
    cursor_locked: bool,
    target: &TargetBlock,
    selected: &SelectedBlock,
    left_pressed: bool,
    right_pressed: bool,
    place_blocked: bool,
    store: &mut ChunkDataStore,
    queue: &mut MeshingQueue,
)
    requires
        old(store).wf(),
        old(queue).wf(),
        cursor_locked && right_pressed ==> target_fits(*target),
    ensures
        final(store).wf(),
        final(queue).wf(),
        final(store)@.dom() == old(store)@.dom(),
        (cells_of(final(store)@), final(queue)@) == block_input_effect(
            cells_of(old(store)@),
            old(queue)@,
            cursor_locked,
            *target,
            selected.0,
            left_pressed,
            right_pressed,
            place_blocked,
        ),
{
    if !cursor_locked {
        return;
    }
    let pos = match target.pos {
        Some(p) => p,
        None => {
            return;
        },
    };
    if left_pressed {
        set_block(pos, BlockType::Air, store, queue);
    }
    if right_pressed {
        let normal = match target.normal {
            Some(n) => n,
            None => {
                return;
            },
        };
        let place_pos = pos.add(normal);
        if !place_blocked {
            set_block(place_pos, selected.0, store, queue);
        }
    }
}

} // verus!
