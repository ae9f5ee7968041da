//! Chunk streaming around the player: which chunks are dropped, which are
//! queued for generation and in what order, how generated chunks enter the
//! world, and which render entities go away with their chunks.
use vstd::prelude::*;
use std::collections::VecDeque;
use crate::coords::{IVec3, ivec};
use crate::chunk_data::ChunkData;
use crate::world::{ChunkDataStore, ChunkMap, restrict_by, in_box, lemma_push_contains};
use crate::meshing::{MeshingQueue, push_back_all};
use crate::coords::{Face, face_at, face_normal, add_spec};

verus! {

/// Horizontal render distance, in chunks.
pub const RENDER_DISTANCE: i32 = 6;

/// Vertical render range, in chunks: the scan covers the offsets -3 to 3
/// around the player's chunk height, centred on offset 0.
pub const VERTICAL_RANGE: i32 = 3;

/// Horizontal distance beyond which chunks are dropped, in chunks.
pub const UNLOAD_DISTANCE: i32 = 8;

/// Number of chunks generated per frame at most.
pub const GENERATE_BUDGET: usize = 4;

/// The chunks waiting to be generated, front first.
pub struct GenerationQueue(pub VecDeque<IVec3>);

/// The player's chunk when the loaded set was last updated.
pub struct LastPlayerChunk(pub Option<IVec3>);

/// True when chunk `c` stays loaded while the player is in chunk `player`:
/// at most 8 chunks away on x and z, and at most 10 on y.
pub open spec fn keeps_loaded(player: IVec3, c: IVec3) -> bool {
    in_box(player, c, 8, 10, 8)
}

/// The offset `(dx, dz, dy)` at step `k` of the candidate scan: dx slowest
/// from -6 to 6, then dz from -6 to 6, then dy fastest from -3 to 3.
pub open spec fn scan_offset(k: int) -> (int, int, int) {
    (k / 91 - 6, (k / 7) % 13 - 6, k % 7 - 3)
}

/// Number of steps of the candidate scan.
pub open spec fn scan_len() -> int {
    1183
}

/// The chunks not yet present among the first `k` steps of the scan around
/// `player`, each with its squared distance.
pub open spec fn scan_candidates(player: IVec3, present: Set<IVec3>, k: int) -> Seq<(i32, IVec3)>
    decreases k,
{
    if k <= 0 {
        Seq::empty()
    } else {
        let prev = scan_candidates(player, present, k - 1);
        let (dx, dz, dy) = scan_offset(k - 1);
        let c = ivec(player.x + dx, player.y + dy, player.z + dz);
        if present.contains(c) {
            prev
        } else {
            prev.push(((dx * dx + dy * dy + dz * dz) as i32, c))
        }
    }
}

/// The chunks of `cands` whose squared distance is `d`, in their order.
pub open spec fn with_distance(cands: Seq<(i32, IVec3)>, d: int) -> Seq<IVec3>
    decreases cands.len(),
{
    if cands.len() == 0 {
        Seq::empty()
    } else {
        let prev = with_distance(cands.drop_last(), d);
        if cands.last().0 == d {
            prev.push(cands.last().1)
        } else {
            prev
        }
    }
}

/// The chunks of `cands` with squared distance below `d`, nearest first, in
/// their order among equals (a stable sort by distance).
pub open spec fn nearest_first(cands: Seq<(i32, IVec3)>, d: int) -> Seq<IVec3>
    decreases d,
{
    if d <= 0 {
        Seq::empty()
    } else {
        nearest_first(cands, d - 1) + with_distance(cands, d - 1)
    }
}

/// The largest squared distance of a scanned offset.
pub open spec fn max_dist2() -> int {
    81
}

/// True when the scan around `player` stays inside the `i32` range.
pub open spec fn scan_fits(player: IVec3) -> bool {
    &&& i32::MIN + 6 <= player.x <= i32::MAX - 6
    &&& i32::MIN + 3 <= player.y <= i32::MAX - 3
    &&& i32::MIN + 6 <= player.z <= i32::MAX - 6
}

proof fn lemma_scan_offset(dx: int, dz: int, dy: int)
    requires
        -6 <= dx <= 6,
        -6 <= dz <= 6,
        -3 <= dy <= 3,
    ensures
        scan_offset((dx + 6) * 91 + (dz + 6) * 7 + (dy + 3)) == (dx, dz, dy),
{
    let a = dx + 6;
    let b = dz + 6;
    let c = dy + 3;
    assert((a * 91 + b * 7 + c) / 91 == a) by (nonlinear_arith)
        requires 0 <= a <= 12, 0 <= b <= 12, 0 <= c <= 6;
    assert((a * 91 + b * 7 + c) / 7 == a * 13 + b) by (nonlinear_arith)
        requires 0 <= a <= 12, 0 <= b <= 12, 0 <= c <= 6;
    assert((a * 13 + b) % 13 == b) by (nonlinear_arith)
        requires 0 <= a <= 12, 0 <= b <= 12;
    assert((a * 91 + b * 7 + c) % 7 == c) by (nonlinear_arith)
        requires 0 <= a <= 12, 0 <= b <= 12, 0 <= c <= 6;
}


fn scan_missing(player: IVec3, map: &ChunkMap, store: &ChunkDataStore) -> (r: Vec<(i32, IVec3)>)
    requires
        scan_fits(player),
    ensures
        r@ == scan_candidates(player, map@.dom().union(store@.dom()), scan_len()),
{
    let ghost present = map@.dom().union(store@.dom());
    let mut r: Vec<(i32, IVec3)> = Vec::new();
    let mut dx: i32 = -6;
    while dx <= 6
        invariant
            scan_fits(player),
            present == map@.dom().union(store@.dom()),
            -6 <= dx <= 7,
            r@ == scan_candidates(player, present, (dx + 6) * 91),
        decreases 7 - dx,
    {
        let mut dz: i32 = -6;
        while dz <= 6
            invariant
                scan_fits(player),
                present == map@.dom().union(store@.dom()),
                -6 <= dx <= 6,
                -6 <= dz <= 7,
                r@ == scan_candidates(player, present, (dx + 6) * 91 + (dz + 6) * 7),
            decreases 7 - dz,
        {
            let mut dy: i32 = -3;
            while dy <= 3
                invariant
                    scan_fits(player),
                    present == map@.dom().union(store@.dom()),
                    -6 <= dx <= 6,
                    -6 <= dz <= 6,
                    -3 <= dy <= 4,
                    r@ == scan_candidates(player, present, (dx + 6) * 91 + (dz + 6) * 7 + (dy + 3)),
                decreases 4 - dy,
            {
                proof {
                    lemma_scan_offset(dx as int, dz as int, dy as int);
                }
                let coord = IVec3 { x: player.x + dx, y: player.y + dy, z: player.z + dz };
                if !map.contains_key(coord) && !store.contains_key(coord) {
                    assert(dx * dx <= 36 && dy * dy <= 9 && dz * dz <= 36) by (nonlinear_arith)
                        requires -6 <= dx <= 6, -3 <= dy <= 3, -6 <= dz <= 6;
                    assert(dx * dx >= 0 && dy * dy >= 0 && dz * dz >= 0) by (nonlinear_arith);
                    let d2 = dx * dx + dy * dy + dz * dz;
                    r.push((d2, coord));
                }
                dy = dy + 1;
            }
            dz = dz + 1;
        }
        dx = dx + 1;
    }
    r
}

fn queue_nearest_first(cands: &Vec<(i32, IVec3)>, gen_queue: &mut GenerationQueue)
    ensures
        final(gen_queue).0@ == old(gen_queue).0@ + nearest_first(cands@, max_dist2() + 1),
{
    let mut d: i32 = 0;
    while d <= 81
        invariant
            0 <= d <= 82,
            gen_queue.0@ == old(gen_queue).0@ + nearest_first(cands@, d as int),
        decreases 82 - d,
    {
        let ghost base = gen_queue.0@;
        let mut j: usize = 0;
        while j < cands.len()
            invariant
                0 <= d <= 81,
                j <= cands@.len(),
                base == old(gen_queue).0@ + nearest_first(cands@, d as int),
                gen_queue.0@ == base + with_distance(cands@.take(j as int), d as int),
            decreases cands@.len() - j,
        {
            assert(cands@.take(j + 1).drop_last() =~= cands@.take(j as int));
            if cands[j].0 == d {
                gen_queue.0.push_back(cands[j].1);
            }
            j = j + 1;
        }
        assert(cands@.take(cands@.len() as int) =~= cands@);
        assert(gen_queue.0@ =~= old(gen_queue).0@ + nearest_first(cands@, d + 1));
        d = d + 1;
    }
}

/// Called every frame with the player's chunk. When the player entered another
/// chunk since the last call: remember the new chunk, drop chunk data and
/// render entities farther than the unload distance, and queue every chunk
/// within the render distance that has neither data nor an entity, nearest
/// first (squared distance, ties in scan order). Otherwise nothing changes.
pub fn update_loaded_chunks(
    player_chunk: IVec3,
    chunk_map: &mut ChunkMap,
    chunk_store: &mut ChunkDataStore,
    gen_queue: &mut GenerationQueue,
    last_chunk: &mut LastPlayerChunk,
)
    requires
        old(chunk_map).wf(),
        old(chunk_store).wf(),
        scan_fits(player_chunk),
    ensures
        final(chunk_map).wf(),
        final(chunk_store).wf(),
        old(last_chunk).0 == Some(player_chunk) ==> {
            &&& final(chunk_map)@ == old(chunk_map)@
            &&& final(chunk_store)@ == old(chunk_store)@
            &&& final(gen_queue).0@ == old(gen_queue).0@
            &&& final(last_chunk).0 == old(last_chunk).0
        },
        old(last_chunk).0 != Some(player_chunk) ==> {
            &&& final(last_chunk).0 == Some(player_chunk)
            &&& final(chunk_store)@ == restrict_by(old(chunk_store)@, |c: IVec3| keeps_loaded(player_chunk, c))
            &&& final(chunk_map)@ == restrict_by(old(chunk_map)@, |c: IVec3| keeps_loaded(player_chunk, c))
            &&& final(gen_queue).0@ == old(gen_queue).0@ + nearest_first(
                scan_candidates(player_chunk, final(chunk_map)@.dom().union(final(chunk_store)@.dom()), scan_len()),
                max_dist2() + 1,
            )
        },
{
    if let Some(last) = last_chunk.0 {
        if last == player_chunk {
            return;
        }
    }
    last_chunk.0 = Some(player_chunk);
    chunk_store.retain_box(player_chunk, UNLOAD_DISTANCE, UNLOAD_DISTANCE + 2, UNLOAD_DISTANCE);
    chunk_map.retain_box(player_chunk, UNLOAD_DISTANCE, UNLOAD_DISTANCE + 2, UNLOAD_DISTANCE);
    assert(chunk_store@ =~= restrict_by(old(chunk_store)@, |c: IVec3| keeps_loaded(player_chunk, c)));
    assert(chunk_map@ =~= restrict_by(old(chunk_map)@, |c: IVec3| keeps_loaded(player_chunk, c)));
    let candidates = scan_missing(player_chunk, chunk_map, chunk_store);
    queue_nearest_first(&candidates, gen_queue);
}

/// What taking the next chunk to generate does: once `count` chunks were
/// generated this frame nothing is handed out and the queue stays as it is;
/// otherwise entries are popped from the front, skipping those whose chunk is
/// loaded already. Gives the new queue and the chunk to generate, if any.
pub open spec fn next_to_generate(q: Seq<IVec3>, loaded: Set<IVec3>, count: nat) -> (Seq<IVec3>, Option<IVec3>)
    decreases q.len(),
{
    if count >= GENERATE_BUDGET || q.len() == 0 {
        (q, None)
    } else if loaded.contains(q[0]) {
        next_to_generate(q.drop_first(), loaded, count)
    } else {
        (q.drop_first(), Some(q[0]))
    }
}

/// Takes the next chunk to generate this frame, given that `count` chunks were
/// generated already this frame.
pub fn next_queued_chunk(gen_queue: &mut GenerationQueue, store: &ChunkDataStore, count: usize) -> (r: Option<IVec3>)
    ensures
        (final(gen_queue).0@, r) == next_to_generate(old(gen_queue).0@, store@.dom(), count as nat),
{
    if count >= GENERATE_BUDGET {
        return None;
    }
    loop
        invariant
            count < GENERATE_BUDGET,
            next_to_generate(gen_queue.0@, store@.dom(), count as nat) == next_to_generate(
                old(gen_queue).0@,
                store@.dom(),
                count as nat,
            ),
        decreases gen_queue.0@.len(),
    {
        let ghost q = gen_queue.0@;
        match gen_queue.0.pop_front() {
            None => {
                return None;
            },
            Some(coord) => {
                assert(gen_queue.0@ =~= q.drop_first());
                if !store.contains_key(coord) {
                    return Some(coord);
                }
            },
        }
    }
}

/// The loaded chunks among the first `d` face neighbours of `c` (+X, -X, +Y, -Y, +Z, -Z).
pub open spec fn loaded_neighbors(c: IVec3, loaded: Set<IVec3>, d: int) -> Seq<IVec3>
    decreases d,
{
    if d <= 0 {
        Seq::empty()
    } else {
        let prev = loaded_neighbors(c, loaded, d - 1);
        let n = add_spec(c, face_normal(face_at(d - 1)));
        if loaded.contains(n) {
            prev.push(n)
        } else {
            prev
        }
    }
}

/// Puts a freshly generated chunk into the world and queues it for meshing,
/// followed by each loaded face neighbour, whose border faces change.
pub fn insert_generated_chunk(store: &mut ChunkDataStore, meshing_queue: &mut MeshingQueue, coord: IVec3, data: ChunkData)
    requires
        old(store).wf(),
        old(meshing_queue).wf(),
        data.wf(),
        i32::MIN < coord.x < i32::MAX,
        i32::MIN < coord.y < i32::MAX,
        i32::MIN < coord.z < i32::MAX,
    ensures
        final(store).wf(),
        final(meshing_queue).wf(),
        final(store)@ == old(store)@.insert(coord, data),
        final(meshing_queue)@ == push_back_all(
            old(meshing_queue)@,
            seq![coord] + loaded_neighbors(coord, final(store)@.dom(), 6),
        ),
{
    store.insert(coord, data);
    let ghost list: Seq<IVec3> = seq![coord];
    meshing_queue.push_back(coord);
    proof {
        assert(list.drop_last() =~= Seq::<IVec3>::empty());
        assert(push_back_all(old(meshing_queue)@, Seq::<IVec3>::empty()) == old(meshing_queue)@);
    }
    let mut d: usize = 0;
    while d < 6
        invariant
            d <= 6,
            store.wf(),
            meshing_queue.wf(),
            i32::MIN < coord.x < i32::MAX,
            i32::MIN < coord.y < i32::MAX,
            i32::MIN < coord.z < i32::MAX,
            store@ == old(store)@.insert(coord, data),
            meshing_queue@ == push_back_all(old(meshing_queue)@, seq![coord] + loaded_neighbors(coord, store@.dom(), d as int)),
        decreases 6 - d,
    {
        let face = Face::from_index(d);
        let neighbor = coord.add(face.normal());
        let ghost prev = seq![coord] + loaded_neighbors(coord, store@.dom(), d as int);
        if store.contains_key(neighbor) {
            meshing_queue.push_back(neighbor);
            assert((prev.push(neighbor)).drop_last() =~= prev);
            assert(seq![coord] + loaded_neighbors(coord, store@.dom(), d + 1) =~= prev.push(neighbor));
        } else {
            assert(seq![coord] + loaded_neighbors(coord, store@.dom(), d + 1) =~= prev);
        }
        d = d + 1;
    }
}

/// Removes the render entity of every chunk whose data is no longer loaded,
/// and gives each removed chunk with its entity, each chunk once.
pub fn sync_chunk_entities(chunk_map: &mut ChunkMap, chunk_store: &ChunkDataStore) -> (r: Vec<(IVec3, u64)>)
    requires
        old(chunk_map).wf(),
    ensures
        final(chunk_map).wf(),
        final(chunk_map)@ == restrict_by(old(chunk_map)@, |c: IVec3| chunk_store@.contains_key(c)),
        forall|i: int| 0 <= i < r@.len() ==> {
            let (c, e) = #[trigger] r@[i];
            old(chunk_map)@.contains_key(c) && !chunk_store@.contains_key(c) && e == old(chunk_map)@[c]
        },
        forall|c: IVec3| old(chunk_map)@.contains_key(c) && !chunk_store@.contains_key(c) ==>
            exists|i: int| 0 <= i < r@.len() && (#[trigger] r@[i]).0 == c,
        forall|i: int, j: int| 0 <= i < j < r@.len() ==> r@[i].0 != r@[j].0,
{
    let coords = chunk_map.coords();
    let mut removed: Vec<(IVec3, u64)> = Vec::new();
    let mut i: usize = 0;
    while i < coords.len()
        invariant
            i <= coords@.len(),
            chunk_map.wf(),
            coords@.no_duplicates(),
            coords@.to_set() == old(chunk_map)@.dom(),
            chunk_map@ == Map::new(
                |c: IVec3| old(chunk_map)@.contains_key(c) && (chunk_store@.contains_key(c) || !coords@.take(i as int).contains(c)),
                |c: IVec3| old(chunk_map)@[c],
            ),
            forall|k: int| 0 <= k < removed@.len() ==> {
                let (c, e) = #[trigger] removed@[k];
                old(chunk_map)@.contains_key(c) && !chunk_store@.contains_key(c) && e == old(chunk_map)@[c]
                    && coords@.take(i as int).contains(c)
            },
            forall|c: IVec3| old(chunk_map)@.contains_key(c) && !chunk_store@.contains_key(c) && coords@.take(i as int).contains(c) ==>
                exists|k: int| 0 <= k < removed@.len() && (#[trigger] removed@[k]).0 == c,
            forall|k: int, j: int| 0 <= k < j < removed@.len() ==> removed@[k].0 != removed@[j].0,
        decreases coords@.len() - i,
    {
        let c = coords[i];
        assert(coords@.take(i + 1) =~= coords@.take(i as int).push(c));
        proof {
            lemma_push_contains(coords@.take(i as int), c);
            if coords@.take(i as int).contains(c) {
                let j = choose|j: int| 0 <= j < i && coords@.take(i as int)[j] == c;
                assert(coords@[j] == coords@[i as int]);
            }
        }
        let ghost removed_before = removed@;
        let ghost map_before = chunk_map@;
        if !chunk_store.contains_key(c) {
            match chunk_map.remove(c) {
                Some(e) => {
                    removed.push((c, e));
                    assert(removed@[removed@.len() - 1].0 == c);
                },
                None => {},
            }
        }
        assert forall|d: IVec3| old(chunk_map)@.contains_key(d) && !chunk_store@.contains_key(d) && coords@.take(i + 1).contains(d) implies
            exists|k: int| 0 <= k < removed@.len() && (#[trigger] removed@[k]).0 == d by {
            if coords@.take(i as int).contains(d) {
                let k = choose|k: int| 0 <= k < removed_before.len() && (#[trigger] removed_before[k]).0 == d;
                assert(removed@[k] == removed_before[k]);
            } else {
                assert(d == c);
                assert(map_before.contains_key(c));
                assert(removed@[removed@.len() - 1].0 == c);
            }
        }
        assert(chunk_map@ =~= Map::new(
            |d: IVec3| old(chunk_map)@.contains_key(d) && (chunk_store@.contains_key(d) || !coords@.take(i + 1).contains(d)),
            |d: IVec3| old(chunk_map)@[d],
        ));
        i = i + 1;
    }
    assert(coords@.take(coords@.len() as int) =~= coords@);
    assert forall|c: IVec3| old(chunk_map)@.contains_key(c) implies #[trigger] coords@.contains(c) by {
        assert(coords@.to_set().contains(c));
    }
    assert(chunk_map@ =~= restrict_by(old(chunk_map)@, |c: IVec3| chunk_store@.contains_key(c)));
    removed
}

/// A chunk stays loaded exactly when, each axis measured by its own
/// coordinate, it is at most 8 chunks from the player's chunk on x, at most
/// 10 on y and at most 8 on z; so after `update_loaded_chunks` every kept
/// chunk and entity is that close, and every one that close was kept.
pub proof fn lemma_keeps_loaded_axes(player: IVec3, c: IVec3)
    ensures
        keeps_loaded(player, c) <==> {
            &&& player.x - 8 <= c.x <= player.x + 8
            &&& player.y - 10 <= c.y <= player.y + 10
            &&& player.z - 8 <= c.z <= player.z + 8
        },
{
}

/// Every scanned candidate is a chunk within the render distance of the
/// player that is not present, at its squared distance (0 to 81), and no
/// chunk is a candidate twice.
pub proof fn lemma_scan_candidates(player: IVec3, present: Set<IVec3>, k: int)
    requires
        scan_fits(player),
        0 <= k <= scan_len(),
    ensures
        forall|j: int| 0 <= j < scan_candidates(player, present, k).len() ==> {
            let (d, c) = #[trigger] scan_candidates(player, present, k)[j];
            let dx = c.x - player.x;
            let dy = c.y - player.y;
            let dz = c.z - player.z;
            &&& !present.contains(c)
            &&& -6 <= dx <= 6 && -3 <= dy <= 3 && -6 <= dz <= 6
            &&& d == dx * dx + dy * dy + dz * dz
            &&& 0 <= d <= max_dist2()
        },
        forall|i: int, j: int| 0 <= i < j < scan_candidates(player, present, k).len() ==>
            scan_candidates(player, present, k)[i].1 != scan_candidates(player, present, k)[j].1,
    decreases k,
{
    if k > 0 {
        lemma_scan_candidates(player, present, k - 1);
        let prev = scan_candidates(player, present, k - 1);
        let (dx, dz, dy) = scan_offset(k - 1);
        assert(-6 <= dx <= 6 && -6 <= dz <= 6 && -3 <= dy <= 3) by {
            assert(0 <= (k - 1) / 91 <= 12) by (nonlinear_arith)
                requires 0 <= k - 1 < 1183;
        }
        assert(0 <= dx * dx <= 36 && 0 <= dy * dy <= 9 && 0 <= dz * dz <= 36) by (nonlinear_arith)
            requires -6 <= dx <= 6, -3 <= dy <= 3, -6 <= dz <= 6;
        let c = IVec3 { x: (player.x + dx) as i32, y: (player.y + dy) as i32, z: (player.z + dz) as i32 };
        if !present.contains(c) {
            let cur = prev.push(((dx * dx + dy * dy + dz * dz) as i32, c));
            assert forall|i: int, j: int| 0 <= i < j < cur.len() implies cur[i].1 != cur[j].1 by {
                if j == cur.len() - 1 {
                    lemma_scan_earlier(player, present, k - 1, i);
                }
            }
        }
    }
}

proof fn lemma_scan_earlier(player: IVec3, present: Set<IVec3>, k: int, i: int)
    requires
        scan_fits(player),
        0 <= k < scan_len(),
        0 <= i < scan_candidates(player, present, k).len(),
    ensures
        ({
            let (dx, dz, dy) = scan_offset(k);
            scan_candidates(player, present, k)[i].1 != ivec(player.x + dx, player.y + dy, player.z + dz)
        }),
    decreases k,
{
    let prev = scan_candidates(player, present, k - 1);
    let (dx, dz, dy) = scan_offset(k);
    let (ex, ez, ey) = scan_offset(k - 1);
    if i < prev.len() {
        lemma_scan_earlier(player, present, k - 1, i);
        lemma_scan_distinct(player, present, k - 1, i, k);
    } else {
        lemma_offsets_distinct(k - 1, k);
    }
}

proof fn lemma_scan_distinct(player: IVec3, present: Set<IVec3>, k: int, i: int, m: int)
    requires
        scan_fits(player),
        0 <= k < m < scan_len(),
        0 <= i < scan_candidates(player, present, k).len(),
    ensures
        ({
            let (dx, dz, dy) = scan_offset(m);
            scan_candidates(player, present, k)[i].1 != ivec(player.x + dx, player.y + dy, player.z + dz)
        }),
    decreases k,
{
    let prev = scan_candidates(player, present, k - 1);
    if i < prev.len() {
        lemma_scan_distinct(player, present, k - 1, i, m);
    } else {
        lemma_offsets_distinct(k - 1, m);
    }
}

proof fn lemma_scan_complete(player: IVec3, present: Set<IVec3>, k: int, m: int)
    requires
        0 <= m < k,
        ({
            let (dx, dz, dy) = scan_offset(m);
            !present.contains(ivec(player.x + dx, player.y + dy, player.z + dz))
        }),
    ensures
        ({
            let (dx, dz, dy) = scan_offset(m);
            exists|j: int| 0 <= j < scan_candidates(player, present, k).len()
                && #[trigger] scan_candidates(player, present, k)[j].1 == ivec(player.x + dx, player.y + dy, player.z + dz)
        }),
    decreases k,
{
    let prev = scan_candidates(player, present, k - 1);
    let (dx, dz, dy) = scan_offset(m);
    let target = ivec(player.x + dx, player.y + dy, player.z + dz);
    if m == k - 1 {
        assert(scan_candidates(player, present, k)[prev.len() as int].1 == target);
    } else {
        lemma_scan_complete(player, present, k - 1, m);
        let j = choose|j: int| 0 <= j < prev.len() && #[trigger] prev[j].1 == target;
        assert(scan_candidates(player, present, k)[j] == prev[j]);
    }
}

proof fn lemma_offsets_distinct(a: int, b: int)
    requires
        0 <= a < b < scan_len(),
    ensures
        scan_offset(a) != scan_offset(b),
{
    let (ax, az, ay) = scan_offset(a);
    let (bx, bz, by) = scan_offset(b);
    assert(a == (ax + 6) * 91 + (az + 6) * 7 + (ay + 3)) by (nonlinear_arith)
        requires 0 <= a, ax == a / 91 - 6, az == (a / 7) % 13 - 6, ay == a % 7 - 3, a < 1183;
    assert(b == (bx + 6) * 91 + (bz + 6) * 7 + (by + 3)) by (nonlinear_arith)
        requires 0 <= b, bx == b / 91 - 6, bz == (b / 7) % 13 - 6, by == b % 7 - 3, b < 1183;
}

proof fn lemma_with_distance_push(c: Seq<(i32, IVec3)>, x: (i32, IVec3), d: int)
    ensures
        with_distance(c.push(x), d) == (if x.0 == d { with_distance(c, d).push(x.1) } else { with_distance(c, d) }),
{
    assert(c.push(x).drop_last() =~= c);
}

proof fn lemma_nearest_first_push(c: Seq<(i32, IVec3)>, x: (i32, IVec3), d: int)
    ensures
        nearest_first(c.push(x), d).len() == nearest_first(c, d).len() + (if 0 <= x.0 < d { 1int } else { 0int }),
        forall|y: IVec3| #[trigger] nearest_first(c.push(x), d).contains(y) <==>
            (nearest_first(c, d).contains(y) || (0 <= x.0 < d && y == x.1)),
    decreases d,
{
    if d > 0 {
        lemma_nearest_first_push(c, x, d - 1);
        lemma_with_distance_push(c, x, d - 1);
        let a = nearest_first(c, d - 1);
        let a2 = nearest_first(c.push(x), d - 1);
        let w = with_distance(c, d - 1);
        let w2 = with_distance(c.push(x), d - 1);
        assert forall|y: IVec3| #[trigger] (a2 + w2).contains(y) <==> ((a + w).contains(y) || (0 <= x.0 < d && y == x.1)) by {
            lemma_concat_contains(a2, w2, y);
            lemma_concat_contains(a, w, y);
            if x.0 == d - 1 {
                lemma_push_contains(w, x.1);
            }
        }
    }
}

proof fn lemma_concat_contains(a: Seq<IVec3>, b: Seq<IVec3>, y: IVec3)
    ensures
        (a + b).contains(y) <==> (a.contains(y) || b.contains(y)),
{
    if a.contains(y) {
        let i = choose|i: int| 0 <= i < a.len() && a[i] == y;
        assert((a + b)[i] == y);
    }
    if b.contains(y) {
        let i = choose|i: int| 0 <= i < b.len() && b[i] == y;
        assert((a + b)[a.len() + i] == y);
    }
    if (a + b).contains(y) {
        let i = choose|i: int| 0 <= i < (a + b).len() && (a + b)[i] == y;
        if i < a.len() {
            assert(a[i] == y);
        } else {
            assert(b[i - a.len()] == y);
        }
    }
}

/// Ordering the candidates nearest first loses and adds nothing: when every
/// squared distance is below `d`, the result has one entry per candidate and
/// holds exactly the candidates' chunks.
pub proof fn lemma_nearest_first_complete(c: Seq<(i32, IVec3)>, d: int)
    requires
        forall|j: int| 0 <= j < c.len() ==> 0 <= #[trigger] c[j].0 < d,
    ensures
        nearest_first(c, d).len() == c.len(),
        forall|y: IVec3| #[trigger] nearest_first(c, d).contains(y) <==> exists|j: int| 0 <= j < c.len() && c[j].1 == y,
    decreases c.len(),
{
    if c.len() == 0 {
        lemma_nearest_first_empty(d);
        assert(c =~= Seq::<(i32, IVec3)>::empty());
    } else {
        let p = c.drop_last();
        assert(p.push(c.last()) =~= c);
        assert forall|j: int| 0 <= j < p.len() implies 0 <= #[trigger] p[j].0 < d by {
            assert(p[j] == c[j]);
        }
        lemma_nearest_first_complete(p, d);
        lemma_nearest_first_push(p, c.last(), d);
        assert forall|y: IVec3| #[trigger] nearest_first(c, d).contains(y) <==> exists|j: int| 0 <= j < c.len() && c[j].1 == y by {
            if nearest_first(p, d).contains(y) {
                let j = choose|j: int| 0 <= j < p.len() && p[j].1 == y;
                assert(c[j].1 == y);
            }
            if exists|j: int| 0 <= j < c.len() && c[j].1 == y {
                let j = choose|j: int| 0 <= j < c.len() && c[j].1 == y;
                if j < p.len() {
                    assert(p[j].1 == y);
                }
            }
        }
    }
}

proof fn lemma_nearest_first_empty(d: int)
    ensures
        nearest_first(Seq::<(i32, IVec3)>::empty(), d) == Seq::<IVec3>::empty(),
    decreases d,
{
    if d > 0 {
        lemma_nearest_first_empty(d - 1);
        assert(nearest_first(Seq::<(i32, IVec3)>::empty(), d) =~= Seq::<IVec3>::empty());
    }
}

/// Every chunk queued by `update_loaded_chunks` is within the render range
/// of the player and has neither data nor an entity; every chunk of the render
/// range that has neither is queued; and there is one queued entry per candidate.
pub proof fn lemma_queued_chunks(player: IVec3, present: Set<IVec3>)
    requires
        scan_fits(player),
    ensures
        ({
            let q = nearest_first(scan_candidates(player, present, scan_len()), max_dist2() + 1);
            &&& forall|c: IVec3| #[trigger] q.contains(c) ==> {
                &&& !present.contains(c)
                &&& -6 <= c.x - player.x <= 6 && -3 <= c.y - player.y <= 3 && -6 <= c.z - player.z <= 6
            }
            &&& q.len() == scan_candidates(player, present, scan_len()).len()
            &&& forall|dx: int, dy: int, dz: int|
                -6 <= dx <= 6 && -3 <= dy <= 3 && -6 <= dz <= 6
                    && !present.contains(#[trigger] ivec(player.x + dx, player.y + dy, player.z + dz))
                    ==> q.contains(ivec(player.x + dx, player.y + dy, player.z + dz))
        }),
{
    let c = scan_candidates(player, present, scan_len());
    lemma_scan_candidates(player, present, scan_len());
    assert forall|j: int| 0 <= j < c.len() implies 0 <= #[trigger] c[j].0 < max_dist2() + 1 by {
        let (d, cc) = c[j];
    }
    lemma_nearest_first_complete(c, max_dist2() + 1);
    let q = nearest_first(c, max_dist2() + 1);
    assert forall|dx: int, dy: int, dz: int|
        -6 <= dx <= 6 && -3 <= dy <= 3 && -6 <= dz <= 6
            && !present.contains(#[trigger] ivec(player.x + dx, player.y + dy, player.z + dz))
        implies q.contains(ivec(player.x + dx, player.y + dy, player.z + dz)) by {
        lemma_scan_offset(dx, dz, dy);
        lemma_scan_complete(player, present, scan_len(), (dx + 6) * 91 + (dz + 6) * 7 + (dy + 3));
        let j = choose|j: int| 0 <= j < c.len() && c[j].1 == ivec(player.x + dx, player.y + dy, player.z + dz);
    }
    assert forall|y: IVec3| #[trigger] q.contains(y) implies {
        &&& !present.contains(y)
        &&& -6 <= y.x - player.x <= 6 && -3 <= y.y - player.y <= 3 && -6 <= y.z - player.z <= 6
    } by {
        let j = choose|j: int| 0 <= j < c.len() && c[j].1 == y;
        let (d, cc) = c[j];
    }
}

} // verus!
