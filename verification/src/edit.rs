//! Reading and writing single blocks of the loaded world by world position.
//! Writes ask for the edited chunk, and for each neighbour that shares the
//! edited block's face, to be meshed again first.
use vstd::prelude::*;
use crate::block::{BlockType, block_code, decode_block, collidable};
use crate::chunk_data::cell_index;
use crate::coords::{IVec3, Face, chunk_of, local_of, ivec, chunk_coords, add_spec, add_fits, face_normal, world_of, lemma_world_split};
use crate::world::{ChunkDataStore, cells_of, cells_wf};
use crate::coords::lemma_split_join;
use crate::chunk_data::{lemma_cell_index_injective};
use crate::meshing::{MeshingQueue, reprioritize_spec, without, lemma_without_keeps};

verus! {

/// The block at world position `p`; blocks of chunks that are not loaded read as air.
pub open spec fn block_in(cells: Map<IVec3, Seq<u8>>, p: IVec3) -> BlockType {
    let c = chunk_of(p);
    let l = local_of(p);
    if cells.contains_key(c) {
        decode_block(cells[c][cell_index(l.x as int, l.y as int, l.z as int)])
    } else {
        BlockType::Air
    }
}

/// True when the chunk holding world position `p` is loaded.
pub open spec fn loaded_at(cells: Map<IVec3, Seq<u8>>, p: IVec3) -> bool {
    cells.contains_key(chunk_of(p))
}

/// The world after writing `b` at world position `p`; nothing changes when the
/// chunk of `p` is not loaded.
pub open spec fn write_cells(cells: Map<IVec3, Seq<u8>>, p: IVec3, b: BlockType) -> Map<IVec3, Seq<u8>> {
    let c = chunk_of(p);
    let l = local_of(p);
    if cells.contains_key(c) {
        cells.insert(c, cells[c].update(cell_index(l.x as int, l.y as int, l.z as int), block_code(b)))
    } else {
        cells
    }
}

/// The chunks to mesh again after an edit at `p`, in the order they are pushed
/// to the front of the queue: the edited chunk, then each neighbour across a
/// face of the edited block that lies on the chunk's border (-X, +X, -Y, +Y, -Z, +Z).
pub open spec fn remesh_list(p: IVec3) -> Seq<IVec3> {
    let c = chunk_of(p);
    let l = local_of(p);
    seq![c]
        + (if l.x == 0 { seq![ivec(c.x as int - 1, c.y as int, c.z as int)] } else { Seq::empty() })
        + (if l.x == 31 { seq![ivec(c.x as int + 1, c.y as int, c.z as int)] } else { Seq::empty() })
        + (if l.y == 0 { seq![ivec(c.x as int, c.y as int - 1, c.z as int)] } else { Seq::empty() })
        + (if l.y == 31 { seq![ivec(c.x as int, c.y as int + 1, c.z as int)] } else { Seq::empty() })
        + (if l.z == 0 { seq![ivec(c.x as int, c.y as int, c.z as int - 1)] } else { Seq::empty() })
        + (if l.z == 31 { seq![ivec(c.x as int, c.y as int, c.z as int + 1)] } else { Seq::empty() })
}

/// The meshing queue after calling `reprioritize` on each coordinate of `list` in turn.
pub open spec fn reprioritize_all(q: Seq<IVec3>, list: Seq<IVec3>) -> Seq<IVec3>
    decreases list.len(),
{
    if list.len() == 0 {
        q
    } else {
        reprioritize_spec(reprioritize_all(q, list.drop_last()), list.last())
    }
}

proof fn lemma_reprioritize_all_contains(q: Seq<IVec3>, list: Seq<IVec3>, x: IVec3)
    requires
        list.contains(x) || q.contains(x),
    ensures
        reprioritize_all(q, list).contains(x),
    decreases list.len(),
{
    if list.len() > 0 {
        let rest = list.drop_last();
        let c = list.last();
        let prev = reprioritize_all(q, rest);
        if x == c {
            assert(reprioritize_spec(prev, c)[0] == x);
        } else {
            if list.contains(x) {
                let j = choose|j: int| 0 <= j < list.len() && list[j] == x;
                assert(j != list.len() - 1);
                assert(rest[j] == x);
            }
            lemma_reprioritize_all_contains(q, rest, x);
            lemma_without_keeps(prev, c, x);
            let w = without(prev, c);
            let k = choose|k: int| 0 <= k < w.len() && w[k] == x;
            assert(reprioritize_spec(prev, c)[k + 1] == x);
        }
    }
}

/// An edit at `p` asks for every chunk that shares a face with the edited
/// block to be meshed again: the edited block's own chunk and, for each face
/// direction, the chunk of the block across that face; all of them wait in
/// the meshing queue afterwards, whatever it held before.
pub proof fn lemma_edit_remeshes_touching_chunks(q: Seq<IVec3>, p: IVec3, f: Face)
    requires
        add_fits(p, face_normal(f)),
    ensures
        remesh_list(p).contains(chunk_of(p)),
        remesh_list(p).contains(chunk_of(add_spec(p, face_normal(f)))),
        reprioritize_all(q, remesh_list(p)).contains(chunk_of(p)),
        reprioritize_all(q, remesh_list(p)).contains(chunk_of(add_spec(p, face_normal(f)))),
{
    let c = chunk_of(p);
    let l = local_of(p);
    let n = face_normal(f);
    lemma_split_join(p);
    let l2 = ivec(l.x + n.x, l.y + n.y, l.z + n.z);
    assert(add_spec(p, n) == world_of(c, l2));
    lemma_world_split(c, l2);
    let target = chunk_of(add_spec(p, n));
    let list = remesh_list(p);
    let ex = if l.x == 0 { seq![ivec(c.x as int - 1, c.y as int, c.z as int)] } else { Seq::<IVec3>::empty() };
    let px = if l.x == 31 { seq![ivec(c.x as int + 1, c.y as int, c.z as int)] } else { Seq::<IVec3>::empty() };
    let ey = if l.y == 0 { seq![ivec(c.x as int, c.y as int - 1, c.z as int)] } else { Seq::<IVec3>::empty() };
    let py = if l.y == 31 { seq![ivec(c.x as int, c.y as int + 1, c.z as int)] } else { Seq::<IVec3>::empty() };
    let ez = if l.z == 0 { seq![ivec(c.x as int, c.y as int, c.z as int - 1)] } else { Seq::<IVec3>::empty() };
    let pz = if l.z == 31 { seq![ivec(c.x as int, c.y as int, c.z as int + 1)] } else { Seq::<IVec3>::empty() };
    assert(list == seq![c] + ex + px + ey + py + ez + pz);
    assert(list[0] == c);
    if target != c {
        let a = seq![c] + ex;
        let b = a + px;
        let d = b + ey;
        let e = d + py;
        let g = e + ez;
        match f {
            Face::NegX => {
                assert(l.x == 0);
                assert(list[1] == target);
            },
            Face::PosX => {
                assert(l.x == 31);
                assert(list[a.len() as int] == target);
            },
            Face::NegY => {
                assert(l.y == 0);
                assert(list[b.len() as int] == target);
            },
            Face::PosY => {
                assert(l.y == 31);
                assert(list[d.len() as int] == target);
            },
            Face::NegZ => {
                assert(l.z == 0);
                assert(list[e.len() as int] == target);
            },
            Face::PosZ => {
                assert(l.z == 31);
                assert(list[g.len() as int] == target);
            },
        }
    }
    lemma_reprioritize_all_contains(q, list, c);
    lemma_reprioritize_all_contains(q, list, target);
}

/// True when the chunk holding world position `p` is loaded.
pub fn is_chunk_loaded(world_pos: IVec3, store: &ChunkDataStore) -> (r: bool)
    ensures
        r == loaded_at(cells_of(store@), world_pos),
{
    let (chunk, _) = chunk_coords(world_pos);
    store.contains_key(chunk)
}

/// The block at a world position; blocks of chunks that are not loaded read as air.
pub fn get_block(world_pos: IVec3, store: &ChunkDataStore) -> (r: BlockType)
    requires
        store.wf(),
    ensures
        r == block_in(cells_of(store@), world_pos),
{
    let (chunk, local) = chunk_coords(world_pos);
    match store.get(chunk) {
        Some(data) => data.get(local.x as usize, local.y as usize, local.z as usize),
        None => BlockType::Air,
    }
}

/// True when the player's body collides with the block at a world position.
pub fn is_solid(world_pos: IVec3, store: &ChunkDataStore) -> (r: bool)
    requires
        store.wf(),
    ensures
        r == collidable(block_in(cells_of(store@), world_pos)),
{
    let b = get_block(world_pos, store);
    !matches!(b, BlockType::Air | BlockType::Leaves | BlockType::Glass)
}

/// True when a ray can stop at the block at a world position (any block but air).
pub fn is_targetable(world_pos: IVec3, store: &ChunkDataStore) -> (r: bool)
    requires
        store.wf(),
    ensures
        r == !(block_in(cells_of(store@), world_pos) is Air),
{
    let block = get_block(world_pos, store);
    !block.is_air()
}

/// True when some block of the box `lo..=hi` (each axis inclusive) collides
/// with the player's body.
pub fn any_solid_in_box(store: &ChunkDataStore, lo: IVec3, hi: IVec3) -> (r: bool)
    requires
        store.wf(),
    ensures
        r == exists|p: IVec3|
            lo.x <= p.x <= hi.x && lo.y <= p.y <= hi.y && lo.z <= p.z <= hi.z
                && collidable(#[trigger] block_in(cells_of(store@), p)),
{
    if lo.x > hi.x || lo.y > hi.y || lo.z > hi.z {
        return false;
    }
    let mut x: i64 = lo.x as i64;
    while x <= hi.x as i64
        invariant
            store.wf(),
            lo.y <= hi.y,
            lo.z <= hi.z,
            lo.x <= x,
            x <= hi.x as i64 + 1,
            forall|p: IVec3|
                lo.x <= p.x < x && lo.y <= p.y <= hi.y && lo.z <= p.z <= hi.z
                    ==> !collidable(#[trigger] block_in(cells_of(store@), p)),
        decreases hi.x as i64 + 1 - x,
    {
        let mut y: i64 = lo.y as i64;
        while y <= hi.y as i64
            invariant
                store.wf(),
                lo.z <= hi.z,
                lo.x <= x <= hi.x,
                lo.y <= y,
                y <= hi.y as i64 + 1,
                forall|p: IVec3|
                    lo.x <= p.x < x && lo.y <= p.y <= hi.y && lo.z <= p.z <= hi.z
                        ==> !collidable(#[trigger] block_in(cells_of(store@), p)),
                forall|p: IVec3|
                    p.x == x && lo.y <= p.y < y && lo.z <= p.z <= hi.z
                        ==> !collidable(#[trigger] block_in(cells_of(store@), p)),
            decreases hi.y as i64 + 1 - y,
        {
            let mut z: i64 = lo.z as i64;
            while z <= hi.z as i64
                invariant
                    store.wf(),
                    lo.x <= x <= hi.x,
                    lo.y <= y <= hi.y,
                    lo.z <= z,
                    z <= hi.z as i64 + 1,
                    forall|p: IVec3|
                        lo.x <= p.x < x && lo.y <= p.y <= hi.y && lo.z <= p.z <= hi.z
                            ==> !collidable(#[trigger] block_in(cells_of(store@), p)),
                    forall|p: IVec3|
                        p.x == x && lo.y <= p.y < y && lo.z <= p.z <= hi.z
                            ==> !collidable(#[trigger] block_in(cells_of(store@), p)),
                    forall|p: IVec3|
                        p.x == x && p.y == y && lo.z <= p.z < z
                            ==> !collidable(#[trigger] block_in(cells_of(store@), p)),
                decreases hi.z as i64 + 1 - z,
            {
                let p = IVec3 { x: x as i32, y: y as i32, z: z as i32 };
                if is_solid(p, store) {
                    return true;
                }
                z = z + 1;
            }
            y = y + 1;
        }
        x = x + 1;
    }
    false
}

/// The chunks to mesh again after an edit at a world position.
fn remesh_chunks(world_pos: IVec3) -> (r: Vec<IVec3>)
    ensures
        r@ == remesh_list(world_pos),
{
    let (c, l) = chunk_coords(world_pos);
    let mut r: Vec<IVec3> = Vec::new();
    r.push(c);
    let ghost r0 = r@;
    if l.x == 0 {
        r.push(IVec3 { x: c.x - 1, y: c.y, z: c.z });
    }
    let ghost r1 = r@;
    if l.x == 31 {
        r.push(IVec3 { x: c.x + 1, y: c.y, z: c.z });
    }
    let ghost r2 = r@;
    if l.y == 0 {
        r.push(IVec3 { x: c.x, y: c.y - 1, z: c.z });
    }
    let ghost r3 = r@;
    if l.y == 31 {
        r.push(IVec3 { x: c.x, y: c.y + 1, z: c.z });
    }
    let ghost r4 = r@;
    if l.z == 0 {
        r.push(IVec3 { x: c.x, y: c.y, z: c.z - 1 });
    }
    let ghost r5 = r@;
    if l.z == 31 {
        r.push(IVec3 { x: c.x, y: c.y, z: c.z + 1 });
    }
    assert(r0 =~= seq![c]);
    assert(r1 =~= r0 + (if l.x == 0 { seq![ivec(c.x as int - 1, c.y as int, c.z as int)] } else { Seq::empty() }));
    assert(r2 =~= r1 + (if l.x == 31 { seq![ivec(c.x as int + 1, c.y as int, c.z as int)] } else { Seq::empty() }));
    assert(r3 =~= r2 + (if l.y == 0 { seq![ivec(c.x as int, c.y as int - 1, c.z as int)] } else { Seq::empty() }));
    assert(r4 =~= r3 + (if l.y == 31 { seq![ivec(c.x as int, c.y as int + 1, c.z as int)] } else { Seq::empty() }));
    assert(r5 =~= r4 + (if l.z == 0 { seq![ivec(c.x as int, c.y as int, c.z as int - 1)] } else { Seq::empty() }));
    assert(r@ =~= r5 + (if l.z == 31 { seq![ivec(c.x as int, c.y as int, c.z as int + 1)] } else { Seq::empty() }));
    r
}

/// Writes `block` at a world position if its chunk is loaded, and then asks
/// for the edited chunk and the neighbours across the edited block's border
/// faces to be meshed first.
pub fn set_block(world_pos: IVec3, block: BlockType, store: &mut ChunkDataStore, queue: &mut MeshingQueue)
    requires
        old(store).wf(),
        old(queue).wf(),
    ensures
        final(store).wf(),
        final(queue).wf(),
        final(store)@.dom() == old(store)@.dom(),
        cells_of(final(store)@) == write_cells(cells_of(old(store)@), world_pos, block),
        final(queue)@ == (if loaded_at(cells_of(old(store)@), world_pos) {
            reprioritize_all(old(queue)@, remesh_list(world_pos))
        } else {
            old(queue)@
        }),
{
    let (chunk, local) = chunk_coords(world_pos);
    let loaded = store.set_local(chunk, local.x as usize, local.y as usize, local.z as usize, block);
    if loaded {
        let list = remesh_chunks(world_pos);
        let mut i: usize = 0;
        while i < list.len()
            invariant
                i <= list@.len(),
                queue.wf(),
                queue@ == reprioritize_all(old(queue)@, list@.take(i as int)),
            decreases list@.len() - i,
        {
            queue.reprioritize(list[i]);
            assert(list@.take(i + 1).drop_last() =~= list@.take(i as int));
            i = i + 1;
        }
        assert(list@.take(list@.len() as int) =~= list@);
    }
}

/// Reading the position just written gives the written block, when its chunk is loaded.
pub proof fn lemma_read_after_write(cells: Map<IVec3, Seq<u8>>, p: IVec3, b: BlockType)
    requires
        cells_wf(cells),
        loaded_at(cells, p),
    ensures
        block_in(write_cells(cells, p, b), p) == b,
{
    let l = local_of(p);
    lemma_split_join(p);
    lemma_cell_index_injective(l.x as int, l.y as int, l.z as int, l.x as int, l.y as int, l.z as int);
}

/// Writing one position leaves every other position as it was, and leaves
/// the set of loaded chunks as it was.
pub proof fn lemma_write_keeps_others(cells: Map<IVec3, Seq<u8>>, p: IVec3, q: IVec3, b: BlockType)
    requires
        cells_wf(cells),
        p != q,
    ensures
        block_in(write_cells(cells, p, b), q) == block_in(cells, q),
        write_cells(cells, p, b).dom() == cells.dom(),
        cells_wf(write_cells(cells, p, b)),
{
    lemma_split_join(p);
    lemma_split_join(q);
    let lp = local_of(p);
    let lq = local_of(q);
    lemma_cell_index_injective(lp.x as int, lp.y as int, lp.z as int, lq.x as int, lq.y as int, lq.z as int);
    if cells.contains_key(chunk_of(p)) {
        assert(write_cells(cells, p, b).dom() =~= cells.dom());
    }
}

} // verus!
