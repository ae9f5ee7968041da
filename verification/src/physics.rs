//! Falling sand: each tick, every queued sand block whose block below is air
//! falls by one block. The position above the old place and the new place are
//! queued again, so that stacks fall one block per tick. A cell that received
//! sand during a tick is not handled again in that tick, so no block falls
//! further than one block per tick, whatever order the queue is walked in.
use vstd::prelude::*;
use crate::block::BlockType;
use crate::coords::{IVec3, ivec};
use crate::world::{ChunkDataStore, PosSet, cells_of, cells_wf};
use crate::edit::{block_in, loaded_at, write_cells, remesh_list, reprioritize_all, get_block, set_block, is_chunk_loaded, lemma_read_after_write, lemma_write_keeps_others};
use crate::meshing::MeshingQueue;

verus! {

/// `s` with `p` appended unless it holds `p` already.
pub open spec fn push_unique(s: Seq<IVec3>, p: IVec3) -> Seq<IVec3> {
    if s.contains(p) {
        s
    } else {
        s.push(p)
    }
}

/// The position one block below `p`.
pub open spec fn below_of(p: IVec3) -> IVec3 {
    ivec(p.x as int, p.y - 1, p.z as int)
}

/// The position one block above `p`.
pub open spec fn above_of(p: IVec3) -> IVec3 {
    ivec(p.x as int, p.y + 1, p.z as int)
}

/// The state of a tick: the world, the meshing queue, the positions to check
/// next tick, and the cells that received sand during this tick.
pub type SandState = (Map<IVec3, Seq<u8>>, Seq<IVec3>, Seq<IVec3>, Set<IVec3>);

/// The state at the start of a tick.
pub open spec fn tick_start(cells: Map<IVec3, Seq<u8>>, q: Seq<IVec3>) -> SandState {
    (cells, q, Seq::empty(), Set::empty())
}

/// True when the sand block at `pos` falls in state `st`: `pos` did not
/// receive sand this tick, holds sand in a loaded chunk, and the block below
/// is loaded and air.
pub open spec fn falls(st: SandState, pos: IVec3) -> bool {
    &&& !st.3.contains(pos)
    &&& loaded_at(st.0, pos)
    &&& block_in(st.0, pos) is Sand
    &&& i32::MIN < pos.y
    &&& loaded_at(st.0, below_of(pos))
    &&& block_in(st.0, below_of(pos)) is Air
}

/// One queued position of a tick: a falling sand block moves down by one.
#[verifier::opaque]
pub open spec fn sand_step(st: SandState, pos: IVec3) -> SandState {
    let (cells, mq, next, received) = st;
    if !falls(st, pos) {
        st
    } else {
        let below = below_of(pos);
        let cells1 = write_cells(cells, pos, BlockType::Air);
        let mq1 = reprioritize_all(mq, remesh_list(pos));
        let cells2 = write_cells(cells1, below, BlockType::Sand);
        let mq2 = reprioritize_all(mq1, remesh_list(below));
        let next1 = if pos.y < i32::MAX {
            push_unique(next, above_of(pos))
        } else {
            next
        };
        (cells2, mq2, push_unique(next1, below), received.insert(below))
    }
}

/// The first `k` positions of a tick, in order.
pub open spec fn sand_steps(st: SandState, positions: Seq<IVec3>, k: int) -> SandState
    decreases k,
{
    if k <= 0 {
        st
    } else {
        sand_step(sand_steps(st, positions, k - 1), positions[k - 1])
    }
}

/// True when handling `pos` in state `st` stays inside the `i32` range: a
/// sand block that is handled is not at the lowest height, and one that falls
/// is not at the highest.
pub open spec fn step_ok(st: SandState, pos: IVec3) -> bool {
    (!st.3.contains(pos) && loaded_at(st.0, pos) && block_in(st.0, pos) is Sand) ==> {
        &&& i32::MIN < pos.y
        &&& (loaded_at(st.0, below_of(pos)) && block_in(st.0, below_of(pos)) is Air) ==> pos.y < i32::MAX
    }
}

/// True when every step of a tick over `positions` stays inside the `i32` range.
pub open spec fn steps_ok(st: SandState, positions: Seq<IVec3>) -> bool {
    forall|i: int| 0 <= i < positions.len() ==> #[trigger] step_ok(sand_steps(st, positions, i), positions[i])
}

/// True when no walk order of the queued set `queue` leaves the `i32` range:
/// a queued sand block is not at the lowest height, and one that may fall (the
/// block below is loaded and air, or queued itself) is not at the highest.
pub open spec fn queue_heights_ok(cells: Map<IVec3, Seq<u8>>, queue: Set<IVec3>) -> bool {
    forall|p: IVec3| #[trigger] queue.contains(p) && loaded_at(cells, p) && block_in(cells, p) is Sand ==> {
        &&& i32::MIN < p.y
        &&& (loaded_at(cells, below_of(p)) && (block_in(cells, below_of(p)) is Air || queue.contains(below_of(p))))
            ==> p.y < i32::MAX
    }
}

/// A cell holding sand in `after` held sand in `before`, or the cell above it did.
pub open spec fn sand_came_from(before: Map<IVec3, Seq<u8>>, after: Map<IVec3, Seq<u8>>, q: IVec3) -> bool {
    (q.y < i32::MAX && block_in(after, q) is Sand) ==> (block_in(before, q) is Sand || block_in(before, above_of(q)) is Sand)
}

/// A sand block of `before` is, in `after`, at its cell or at the cell below.
pub open spec fn sand_went_to(before: Map<IVec3, Seq<u8>>, after: Map<IVec3, Seq<u8>>, p: IVec3) -> bool {
    (i32::MIN < p.y && block_in(before, p) is Sand) ==> (block_in(after, p) is Sand || block_in(after, below_of(p)) is Sand)
}

/// The law of a tick: a cell holds sand afterwards only if it or the cell
/// above held sand before, and a sand block ends the tick at its cell or the
/// cell below.
pub open spec fn moves_at_most_one(before: Map<IVec3, Seq<u8>>, after: Map<IVec3, Seq<u8>>) -> bool {
    &&& forall|q: IVec3| #[trigger] sand_came_from(before, after, q)
    &&& forall|p: IVec3| #[trigger] sand_went_to(before, after, p)
}

/// A block that is neither air nor sand in `before` is unchanged in `after`.
pub open spec fn other_kept(before: Map<IVec3, Seq<u8>>, after: Map<IVec3, Seq<u8>>, q: IVec3) -> bool {
    (!(block_in(before, q) is Air) && !(block_in(before, q) is Sand)) ==> block_in(after, q) == block_in(before, q)
}

/// The law of a tick on other blocks: sand only falls into air, so a tick
/// never changes a block that is neither air nor sand.
pub open spec fn others_kept(before: Map<IVec3, Seq<u8>>, after: Map<IVec3, Seq<u8>>) -> bool {
    forall|q: IVec3| #[trigger] other_kept(before, after, q)
}

/// A cell that neither was handled nor received sand holds its first block.
spec fn untouched(st0: SandState, st: SandState, handled: Seq<IVec3>, q: IVec3) -> bool {
    (!st.3.contains(q) && !handled.contains(q)) ==> block_in(st.0, q) == block_in(st0.0, q)
}

/// A cell that received sand holds sand, and the sand came from the handled
/// cell above, which held sand at the start.
spec fn received_ok(st0: SandState, st: SandState, handled: Seq<IVec3>, q: IVec3) -> bool {
    st.3.contains(q) ==> {
        &&& q.y < i32::MAX
        &&& block_in(st.0, q) is Sand
        &&& block_in(st0.0, above_of(q)) is Sand
        &&& handled.contains(above_of(q))
    }
}

/// Sand in a cell that did not receive sand was there at the start.
spec fn sand_stays(st0: SandState, st: SandState, q: IVec3) -> bool {
    (!st.3.contains(q) && block_in(st.0, q) is Sand) ==> block_in(st0.0, q) is Sand
}

/// A sand block of the start is at its cell, or fell into the cell below.
spec fn sand_found(st0: SandState, st: SandState, p: IVec3) -> bool {
    (i32::MIN < p.y && block_in(st0.0, p) is Sand) ==> {
        ||| block_in(st.0, p) is Sand
        ||| (st.3.contains(below_of(p)) && block_in(st.0, below_of(p)) is Sand)
    }
}

/// What stays true over the steps of a tick that started with no received cells.
spec fn tick_frame(st0: SandState, positions: Seq<IVec3>, k: int) -> bool {
    let st = sand_steps(st0, positions, k);
    let handled = positions.take(k);
    &&& st.0.dom() == st0.0.dom()
    &&& cells_wf(st.0)
    &&& forall|q: IVec3| #[trigger] untouched(st0, st, handled, q)
    &&& forall|q: IVec3| #[trigger] received_ok(st0, st, handled, q)
    &&& forall|q: IVec3| #[trigger] sand_stays(st0, st, q)
    &&& forall|p: IVec3| #[trigger] sand_found(st0, st, p)
    &&& forall|q: IVec3| #[trigger] other_kept(st0.0, st.0, q)
}

proof fn lemma_take_grows(s: Seq<IVec3>, k: int, q: IVec3)
    requires
        0 <= k < s.len(),
    ensures
        s.take(k).contains(q) ==> s.take(k + 1).contains(q),
        s.take(k + 1).contains(s[k]),
        s.take(k + 1).contains(q) ==> (s.take(k).contains(q) || q == s[k]),
{
    let a = s.take(k);
    let b = s.take(k + 1);
    if a.contains(q) {
        let j = choose|j: int| 0 <= j < a.len() && a[j] == q;
        assert(b[j] == q);
    }
    assert(b[k] == s[k]);
    if b.contains(q) {
        let j = choose|j: int| 0 <= j < b.len() && b[j] == q;
        if j < k {
            assert(a[j] == q);
        }
    }
}

proof fn lemma_tick_frame(st0: SandState, positions: Seq<IVec3>, k: int)
    requires
        cells_wf(st0.0),
        st0.3 == Set::<IVec3>::empty(),
        0 <= k <= positions.len(),
    ensures
        tick_frame(st0, positions, k),
    decreases k,
{
    if k == 0 {
        assert(positions.take(0) =~= Seq::<IVec3>::empty());
    } else {
        lemma_tick_frame(st0, positions, k - 1);
        lemma_tick_frame_step(st0, positions, k);
    }
}

proof fn lemma_tick_frame_step(st0: SandState, positions: Seq<IVec3>, k: int)
    requires
        0 < k <= positions.len(),
        tick_frame(st0, positions, k - 1),
    ensures
        tick_frame(st0, positions, k),
{
    let st = sand_steps(st0, positions, k);
    let prev = sand_steps(st0, positions, k - 1);
    let pos = positions[k - 1];
    let h0 = positions.take(k - 1);
    let h1 = positions.take(k);
    assert(st == sand_step(prev, pos));
    lemma_sand_step(prev, pos);
    lemma_take_grows(positions, k - 1, pos);
    if !falls(prev, pos) {
        assert forall|q: IVec3| #[trigger] untouched(st0, st, h1, q) by {
            lemma_take_grows(positions, k - 1, q);
            assert(untouched(st0, prev, h0, q));
        }
        assert forall|q: IVec3| #[trigger] received_ok(st0, st, h1, q) by {
            assert(received_ok(st0, prev, h0, q));
            lemma_take_grows(positions, k - 1, above_of(q));
        }
        assert forall|q: IVec3| #[trigger] sand_stays(st0, st, q) by {
            assert(sand_stays(st0, prev, q));
        }
        assert forall|p: IVec3| #[trigger] sand_found(st0, st, p) by {
            assert(sand_found(st0, prev, p));
        }
        assert forall|q: IVec3| #[trigger] other_kept(st0.0, st.0, q) by {
            assert(other_kept(st0.0, prev.0, q));
        }
    } else {
        let below = below_of(pos);
        assert(sand_stays(st0, prev, pos));
        assert(received_ok(st0, prev, h0, below));
        assert forall|q: IVec3| #[trigger] untouched(st0, st, h1, q) by {
            lemma_take_grows(positions, k - 1, q);
            assert(untouched(st0, prev, h0, q));
            if q != pos && q != below {
                assert(block_in(st.0, q) == block_in(prev.0, q));
            }
        }
        assert forall|q: IVec3| #[trigger] received_ok(st0, st, h1, q) by {
            assert(received_ok(st0, prev, h0, q));
            lemma_take_grows(positions, k - 1, above_of(q));
            if q != below && prev.3.contains(q) {
                assert(q != pos);
                assert(block_in(st.0, q) == block_in(prev.0, q));
            }
        }
        assert forall|q: IVec3| #[trigger] sand_stays(st0, st, q) by {
            assert(sand_stays(st0, prev, q));
            if q != pos && q != below {
                assert(block_in(st.0, q) == block_in(prev.0, q));
            }
        }
        assert forall|p: IVec3| #[trigger] sand_found(st0, st, p) by {
            assert(sand_found(st0, prev, p));
            if i32::MIN < p.y && block_in(st0.0, p) is Sand {
                if block_in(prev.0, p) is Sand {
                    if p != pos && p != below {
                        assert(block_in(st.0, p) == block_in(prev.0, p));
                    }
                } else {
                    assert(received_ok(st0, prev, h0, below_of(p)));
                    assert(below_of(p) != pos);
                    assert(below_of(p) != below);
                    assert(block_in(st.0, below_of(p)) == block_in(prev.0, below_of(p)));
                }
            }
        }
        assert forall|q: IVec3| #[trigger] other_kept(st0.0, st.0, q) by {
            assert(other_kept(st0.0, prev.0, q));
            if !(block_in(st0.0, q) is Air) && !(block_in(st0.0, q) is Sand) {
                assert(q != pos && q != below);
                assert(block_in(st.0, q) == block_in(prev.0, q));
            }
        }
    }
}

/// Every walk order of a tick moves each sand block by at most one block
/// (see `moves_at_most_one`), and changes no block that is neither air
/// nor sand (see `others_kept`).
pub proof fn lemma_tick_moves_at_most_one(cells: Map<IVec3, Seq<u8>>, q: Seq<IVec3>, positions: Seq<IVec3>)
    requires
        cells_wf(cells),
    ensures
        moves_at_most_one(cells, sand_steps(tick_start(cells, q), positions, positions.len() as int).0),
        others_kept(cells, sand_steps(tick_start(cells, q), positions, positions.len() as int).0),
{
    let st0 = tick_start(cells, q);
    let n = positions.len() as int;
    lemma_tick_frame(st0, positions, n);
    let after = sand_steps(st0, positions, n);
    assert forall|x: IVec3| #[trigger] sand_came_from(cells, after.0, x) by {
        assert(sand_stays(st0, after, x));
        assert(received_ok(st0, after, positions.take(n), x));
    }
    assert forall|x: IVec3| #[trigger] sand_went_to(cells, after.0, x) by {
        assert(sand_found(st0, after, x));
    }
    assert forall|x: IVec3| #[trigger] other_kept(cells, after.0, x) by {
        assert(other_kept(st0.0, after.0, x));
    }
}


/// One step moves a sand block down by one when it falls, and then changes no
/// other block; otherwise it changes nothing at all. A sand block never falls
/// into a chunk that is not loaded.
pub proof fn lemma_sand_step(st: SandState, pos: IVec3)
    requires
        cells_wf(st.0),
    ensures
        ({
            let below = below_of(pos);
            let after = sand_step(st, pos);
            if falls(st, pos) {
                &&& block_in(after.0, pos) is Air
                &&& block_in(after.0, below) is Sand
                &&& forall|q: IVec3| q != pos && q != below ==> #[trigger] block_in(after.0, q) == block_in(st.0, q)
                &&& after.0.dom() == st.0.dom()
                &&& cells_wf(after.0)
                &&& after.3 == st.3.insert(below)
                &&& pos != below
                &&& above_of(below) == pos
            } else {
                after == st
            }
        }),
{
    reveal(sand_step);
    let below = below_of(pos);
    if falls(st, pos) {
        let cells1 = write_cells(st.0, pos, BlockType::Air);
        assert(pos != below);
        lemma_read_after_write(st.0, pos, BlockType::Air);
        lemma_write_keeps_others(st.0, pos, below, BlockType::Air);
        lemma_read_after_write(cells1, below, BlockType::Sand);
        lemma_write_keeps_others(cells1, below, pos, BlockType::Sand);
        assert forall|q: IVec3| q != pos && q != below implies #[trigger] block_in(sand_step(st, pos).0, q) == block_in(st.0, q) by {
            lemma_write_keeps_others(st.0, pos, q, BlockType::Air);
            lemma_write_keeps_others(cells1, below, q, BlockType::Sand);
        }
    }
}

/// A queue whose heights fit (`queue_heights_ok`) keeps every step of every
/// walk order of it inside the `i32` range.
pub proof fn lemma_queue_heights(cells: Map<IVec3, Seq<u8>>, q: Seq<IVec3>, queue: Set<IVec3>, order: Seq<IVec3>)
    requires
        cells_wf(cells),
        queue_heights_ok(cells, queue),
        order.no_duplicates(),
        order.to_set() == queue,
    ensures
        steps_ok(tick_start(cells, q), order),
{
    let st0 = tick_start(cells, q);
    assert forall|i: int| 0 <= i < order.len() implies #[trigger] step_ok(sand_steps(st0, order, i), order[i]) by {
        lemma_tick_frame(st0, order, i);
        let st = sand_steps(st0, order, i);
        let pos = order[i];
        assert(!order.take(i).contains(pos)) by {
            if order.take(i).contains(pos) {
                let j = choose|j: int| 0 <= j < i && order.take(i)[j] == pos;
                assert(order[j] == pos);
            }
        }
        assert(order.to_set().contains(pos));
        if !st.3.contains(pos) && loaded_at(st.0, pos) && block_in(st.0, pos) is Sand {
            assert(untouched(st0, st, order.take(i), pos));
            assert(block_in(st.0, pos) == block_in(cells, pos));
            assert(queue.contains(pos));
            let below = below_of(pos);
            if loaded_at(st.0, below) && block_in(st.0, below) is Air {
                assert(received_ok(st0, st, order.take(i), below));
                assert(!st.3.contains(below));
                assert(untouched(st0, st, order.take(i), below));
                if order.take(i).contains(below) {
                    let j = choose|j: int| 0 <= j < i && order.take(i)[j] == below;
                    assert(order[j] == below);
                    assert(order.to_set().contains(below));
                } else {
                    assert(block_in(st.0, below) == block_in(cells, below));
                }
            }
        }
    }
}

/// One tick of falling sand over `positions`, in order. Gives the positions to
/// check on the next tick, each once.
pub fn sand_gravity_step(positions: &Vec<IVec3>, store: &mut ChunkDataStore, meshing_queue: &mut MeshingQueue) -> (r: Vec<IVec3>)
    requires
        old(store).wf(),
        old(meshing_queue).wf(),
        steps_ok(tick_start(cells_of(old(store)@), old(meshing_queue)@), positions@),
    ensures
        final(store).wf(),
        final(meshing_queue).wf(),
        final(store)@.dom() == old(store)@.dom(),
        ({
            let st = sand_steps(tick_start(cells_of(old(store)@), old(meshing_queue)@), positions@, positions@.len() as int);
            &&& cells_of(final(store)@) == st.0
            &&& final(meshing_queue)@ == st.1
            &&& r@ == st.2
        }),
        r@.no_duplicates(),
        moves_at_most_one(cells_of(old(store)@), cells_of(final(store)@)),
        others_kept(cells_of(old(store)@), cells_of(final(store)@)),
{
    let ghost st0 = tick_start(cells_of(store@), meshing_queue@);
    let mut next: Vec<IVec3> = Vec::new();
    let mut received = PosSet::new();
    let mut i: usize = 0;
    proof {
        store.lemma_cells_wf();
    }
    while i < positions.len()
        invariant
            i <= positions@.len(),
            store.wf(),
            meshing_queue.wf(),
            received.wf(),
            st0 == tick_start(cells_of(old(store)@), old(meshing_queue)@),
            steps_ok(st0, positions@),
            store@.dom() == old(store)@.dom(),
            next@.no_duplicates(),
            (cells_of(store@), meshing_queue@, next@, received@) == sand_steps(st0, positions@, i as int),
        decreases positions@.len() - i,
    {
        let pos = positions[i];
        let ghost st = sand_steps(st0, positions@, i as int);
        assert(step_ok(st, positions@[i as int]));
        assert(sand_steps(st0, positions@, i + 1) == sand_step(st, pos));
        proof {
            reveal(sand_step);
        }
        if !received.contains(pos) && is_chunk_loaded(pos, store) && matches!(get_block(pos, store), BlockType::Sand) {
            let below = IVec3 { x: pos.x, y: pos.y - 1, z: pos.z };
            if is_chunk_loaded(below, store) && matches!(get_block(below, store), BlockType::Air) {
                set_block(pos, BlockType::Air, store, meshing_queue);
                set_block(below, BlockType::Sand, store, meshing_queue);
                let above = IVec3 { x: pos.x, y: pos.y + 1, z: pos.z };
                if !vec_contains(&next, above) {
                    next.push(above);
                }
                if !vec_contains(&next, below) {
                    next.push(below);
                }
                received.insert(below);
            }
        }
        i = i + 1;
    }
    proof {
        lemma_tick_moves_at_most_one(cells_of(old(store)@), old(meshing_queue)@, positions@);
    }
    next
}

fn vec_contains(v: &Vec<IVec3>, p: IVec3) -> (r: bool)
    ensures
        r == v@.contains(p),
{
    let mut i: usize = 0;
    while i < v.len()
        invariant
            i <= v@.len(),
            forall|j: int| 0 <= j < i ==> v@[j] != p,
        decreases v@.len() - i,
    {
        if v[i] == p {
            return true;
        }
        i = i + 1;
    }
    false
}

/// The world positions of sand blocks to check on the next tick.
pub struct FallingSandQueue(pub PosSet);

/// One tick of falling sand over every queued position. The queue is walked in
/// hash table order; whatever that order is, the tick is `sand_steps` over it,
/// no sand block moves by more than one block, and the queue afterwards holds
/// exactly the positions to check next tick.
pub fn sand_gravity(sand_queue: &mut FallingSandQueue, store: &mut ChunkDataStore, meshing_queue: &mut MeshingQueue)
    requires
        old(sand_queue).0.wf(),
        old(store).wf(),
        old(meshing_queue).wf(),
        queue_heights_ok(cells_of(old(store)@), old(sand_queue).0@),
    ensures
        final(sand_queue).0.wf(),
        final(store).wf(),
        final(meshing_queue).wf(),
        final(store)@.dom() == old(store)@.dom(),
        moves_at_most_one(cells_of(old(store)@), cells_of(final(store)@)),
        others_kept(cells_of(old(store)@), cells_of(final(store)@)),
        exists|order: Seq<IVec3>| {
            &&& order.no_duplicates()
            &&& order.to_set() == old(sand_queue).0@
            &&& #[trigger] sand_steps(tick_start(cells_of(old(store)@), old(meshing_queue)@), order, order.len() as int).0
                == cells_of(final(store)@)
            &&& sand_steps(tick_start(cells_of(old(store)@), old(meshing_queue)@), order, order.len() as int).1
                == final(meshing_queue)@
            &&& final(sand_queue).0@
                == sand_steps(tick_start(cells_of(old(store)@), old(meshing_queue)@), order, order.len() as int).2.to_set()
        },
{
    let positions = sand_queue.0.take_all();
    proof {
        old(store).lemma_cells_wf();
        lemma_queue_heights(cells_of(old(store)@), old(meshing_queue)@, old(sand_queue).0@, positions@);
    }
    let next = sand_gravity_step(&positions, store, meshing_queue);
    let mut i: usize = 0;
    while i < next.len()
        invariant
            i <= next@.len(),
            sand_queue.0.wf(),
            sand_queue.0@ == next@.take(i as int).to_set(),
        decreases next@.len() - i,
    {
        sand_queue.0.insert(next[i]);
        assert(next@.take(i + 1) =~= next@.take(i as int).push(next@[i as int]));
        proof {
            next@.take(i as int).lemma_push_to_set_commute(next@[i as int]);
        }
        i = i + 1;
    }
    assert(next@.take(next@.len() as int) =~= next@);
}

} // verus!
