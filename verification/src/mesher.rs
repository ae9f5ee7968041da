//! Face culling: which faces of a chunk's blocks are drawn, and which atlas
//! tile each face shows. A face is drawn when the block across it is
//! transparent; blocks of neighbouring chunks that are not loaded count as air.
use vstd::prelude::*;
use crate::block::{BlockType, decode_block, transparent};
use crate::chunk_data::{ChunkData, cell_index, in_chunk};
use crate::coords::{IVec3, UVec3, Face, face_at, face_normal, add_spec, add_fits, fits_i32, ivec, chunk_coords, world_of, lemma_world_split};
use crate::edit::block_in;
use crate::world::{ChunkDataStore, cells_of};

verus! {

/// One drawn face: the local position of its block, its direction and the block kind.
#[derive(Debug, Clone, Copy, PartialEq, Eq, Structural)]
pub struct FaceQuad {
    pub pos: UVec3,
    pub face: Face,
    pub block: BlockType,
}

/// The block at signed local position `l` of chunk `cc`, whose bytes are `chunk`:
/// inside the chunk it is read from `chunk`, outside from the loaded neighbour,
/// and air when that neighbour is not loaded.
pub open spec fn block_near(chunk: Seq<u8>, cells: Map<IVec3, Seq<u8>>, cc: IVec3, l: IVec3) -> BlockType {
    if in_chunk(l.x as int, l.y as int, l.z as int) {
        decode_block(chunk[cell_index(l.x as int, l.y as int, l.z as int)])
    } else {
        let nc = ivec(cc.x + l.x as int / 32, cc.y + l.y as int / 32, cc.z + l.z as int / 32);
        let nl = ivec((l.x as int) % 32, (l.y as int) % 32, (l.z as int) % 32);
        if cells.contains_key(nc) {
            decode_block(cells[nc][cell_index(nl.x as int, nl.y as int, nl.z as int)])
        } else {
            BlockType::Air
        }
    }
}

/// The block seen at local position `l` of chunk `cc` is the block of the
/// world at that position: outside the chunk, the block that the loaded
/// chunks hold at world position `cc * 32 + l` (air where none is loaded);
/// inside it, the chunk's own block, which is the world's block when the
/// world holds this chunk at `cc`.
pub proof fn lemma_block_near_is_world_block(chunk: Seq<u8>, cells: Map<IVec3, Seq<u8>>, cc: IVec3, l: IVec3)
    requires
        fits_i32(cc.x * 32 + l.x, cc.y * 32 + l.y, cc.z * 32 + l.z),
    ensures
        !in_chunk(l.x as int, l.y as int, l.z as int) ==> block_near(chunk, cells, cc, l) == block_in(cells, world_of(cc, l)),
        in_chunk(l.x as int, l.y as int, l.z as int) ==> block_near(chunk, cells, cc, l) == decode_block(
            chunk[cell_index(l.x as int, l.y as int, l.z as int)],
        ),
        (in_chunk(l.x as int, l.y as int, l.z as int) && cells.contains_key(cc) && cells[cc] == chunk)
            ==> block_near(chunk, cells, cc, l) == block_in(cells, world_of(cc, l)),
{
    lemma_world_split(cc, l);
}

/// Face `d` of the non-air block `(x, y, z)` looks out of the chunk only
/// where the neighbouring chunk across that face has coordinates in `i32`.
pub open spec fn border_face_fits(chunk: Seq<u8>, cc: IVec3, x: int, y: int, z: int, d: int) -> bool {
    let nrm = face_normal(face_at(d));
    (in_chunk(x, y, z) && 0 <= d < 6 && !(decode_block(chunk[cell_index(x, y, z)]) is Air)
        && !in_chunk(x + nrm.x, y + nrm.y, z + nrm.z)) ==> add_fits(cc, nrm)
}

/// Every neighbouring chunk that a non-air border block of chunk `cc` looks
/// into has coordinates in `i32`.
pub open spec fn border_fits(chunk: Seq<u8>, cc: IVec3) -> bool {
    forall|x: int, y: int, z: int, d: int| #[trigger] border_face_fits(chunk, cc, x, y, z, d)
}

/// Local block `(x, y, z)` of the iteration position `i`: x slowest, z fastest.
pub open spec fn iter_pos(i: int) -> (int, int, int) {
    (i / 1024, (i / 32) % 32, i % 32)
}

/// The faces of block `(x, y, z)` drawn among the first `d` directions.
pub open spec fn block_faces(chunk: Seq<u8>, cells: Map<IVec3, Seq<u8>>, cc: IVec3, x: int, y: int, z: int, d: int) -> Seq<FaceQuad>
    decreases d,
{
    if d <= 0 {
        Seq::empty()
    } else {
        let prev = block_faces(chunk, cells, cc, x, y, z, d - 1);
        let f = face_at(d - 1);
        let n = add_spec(ivec(x, y, z), face_normal(f));
        if transparent(block_near(chunk, cells, cc, n)) {
            prev.push(FaceQuad {
                pos: UVec3 { x: x as u32, y: y as u32, z: z as u32 },
                face: f,
                block: decode_block(chunk[cell_index(x, y, z)]),
            })
        } else {
            prev
        }
    }
}

/// The faces drawn for the first `n` blocks of the iteration order.
pub open spec fn faces_upto(chunk: Seq<u8>, cells: Map<IVec3, Seq<u8>>, cc: IVec3, n: int) -> Seq<FaceQuad>
    decreases n,
{
    if n <= 0 {
        Seq::empty()
    } else {
        let (x, y, z) = iter_pos(n - 1);
        let prev = faces_upto(chunk, cells, cc, n - 1);
        if decode_block(chunk[cell_index(x, y, z)]) is Air {
            prev
        } else {
            prev + block_faces(chunk, cells, cc, x, y, z, 6)
        }
    }
}

/// The atlas tile `(column, row)` shown on face `f` of a `block`.
pub open spec fn tile_of(block: BlockType, f: Face) -> (u32, u32) {
    match block {
        BlockType::Grass => if f is PosY {
            (0, 0)
        } else if f is NegY {
            (2, 0)
        } else {
            (3, 0)
        },
        BlockType::Stone => (1, 0),
        BlockType::Dirt => (2, 0),
        BlockType::Sand => (2, 1),
        BlockType::Cobblestone => (0, 1),
        BlockType::Bedrock => (1, 1),
        BlockType::Wood => if f is PosY || f is NegY {
            (5, 1)
        } else {
            (4, 1)
        },
        BlockType::Planks => (4, 0),
        BlockType::Glass => (1, 3),
        BlockType::Leaves => (4, 3),
        BlockType::Air => (0, 0),
    }
}

/// The atlas tile `(column, row)` shown on a face of a block.
pub fn block_tile(block: BlockType, face: Face) -> (r: (u32, u32))
    ensures
        r == tile_of(block, face),
{
    match block {
        BlockType::Grass => {
            if matches!(face, Face::PosY) {
                (0, 0)
            } else if matches!(face, Face::NegY) {
                (2, 0)
            } else {
                (3, 0)
            }
        },
        BlockType::Stone => (1, 0),
        BlockType::Dirt => (2, 0),
        BlockType::Sand => (2, 1),
        BlockType::Cobblestone => (0, 1),
        BlockType::Bedrock => (1, 1),
        BlockType::Wood => {
            if matches!(face, Face::PosY | Face::NegY) {
                (5, 1)
            } else {
                (4, 1)
            }
        },
        BlockType::Planks => (4, 0),
        BlockType::Glass => (1, 3),
        BlockType::Leaves => (4, 3),
        BlockType::Air => (0, 0),
    }
}

/// The block at a signed local position of chunk `chunk_coord`, reading the
/// neighbouring chunk when the position is outside; unloaded neighbours read as air.
pub fn get_block_at(chunk: &ChunkData, store: &ChunkDataStore, chunk_coord: IVec3, local: IVec3) -> (r: BlockType)
    requires
        chunk.wf(),
        store.wf(),
        fits_i32(
            chunk_coord.x + local.x as int / 32,
            chunk_coord.y + local.y as int / 32,
            chunk_coord.z + local.z as int / 32,
        ),
    ensures
        r == block_near(chunk@, cells_of(store@), chunk_coord, local),
{
    if local.x >= 0 && local.y >= 0 && local.z >= 0 && local.x < 32 && local.y < 32 && local.z < 32 {
        chunk.get(local.x as usize, local.y as usize, local.z as usize)
    } else {
        let (offset, neighbor_local) = chunk_coords(local);
        let neighbor_coord = IVec3 {
            x: chunk_coord.x + offset.x,
            y: chunk_coord.y + offset.y,
            z: chunk_coord.z + offset.z,
        };
        match store.get(neighbor_coord) {
            Some(neighbor) => neighbor.get(
                neighbor_local.x as usize,
                neighbor_local.y as usize,
                neighbor_local.z as usize,
            ),
            None => BlockType::Air,
        }
    }
}

proof fn lemma_iter_pos(x: int, y: int, z: int)
    requires
        0 <= x < 32,
        0 <= y < 32,
        0 <= z < 32,
    ensures
        iter_pos(x * 1024 + y * 32 + z) == (x, y, z),
{
    assert((x * 1024 + y * 32 + z) / 1024 == x) by (nonlinear_arith)
        requires 0 <= x < 32, 0 <= y < 32, 0 <= z < 32;
    assert((x * 1024 + y * 32 + z) / 32 == x * 32 + y) by (nonlinear_arith)
        requires 0 <= x < 32, 0 <= y < 32, 0 <= z < 32;
    assert((x * 32 + y) % 32 == y) by (nonlinear_arith)
        requires 0 <= x < 32, 0 <= y < 32;
    assert((x * 1024 + y * 32 + z) % 32 == z) by (nonlinear_arith)
        requires 0 <= x < 32, 0 <= y < 32, 0 <= z < 32;
}

/// Across face `d` of a block inside the chunk, the chunk offset of the
/// neighbouring position is zero inside the chunk and the face normal outside.
proof fn lemma_neighbor_offset(x: int, y: int, z: int, d: int)
    requires
        in_chunk(x, y, z),
        0 <= d < 6,
    ensures
        ({
            let nrm = face_normal(face_at(d));
            let (nx, ny, nz) = (x + nrm.x, y + nrm.y, z + nrm.z);
            if in_chunk(nx, ny, nz) {
                nx / 32 == 0 && ny / 32 == 0 && nz / 32 == 0
            } else {
                nx / 32 == nrm.x && ny / 32 == nrm.y && nz / 32 == nrm.z
            }
        }),
{
}

/// A block draws at most its six faces.
proof fn lemma_block_faces_len(chunk: Seq<u8>, cells: Map<IVec3, Seq<u8>>, cc: IVec3, x: int, y: int, z: int, d: int)
    requires
        0 <= d,
    ensures
        block_faces(chunk, cells, cc, x, y, z, d).len() <= d,
    decreases d,
{
    if d > 0 {
        lemma_block_faces_len(chunk, cells, cc, x, y, z, d - 1);
    }
}

/// The first `n` blocks draw at most six faces each.
proof fn lemma_faces_upto_len(chunk: Seq<u8>, cells: Map<IVec3, Seq<u8>>, cc: IVec3, n: int)
    requires
        0 <= n,
    ensures
        faces_upto(chunk, cells, cc, n).len() <= 6 * n,
    decreases n,
{
    if n > 0 {
        lemma_faces_upto_len(chunk, cells, cc, n - 1);
        let (x, y, z) = iter_pos(n - 1);
        lemma_block_faces_len(chunk, cells, cc, x, y, z, 6);
    }
}

/// The drawn faces of a chunk, in the order the mesh lists them: blocks with x
/// slowest and z fastest, and for each block the faces +X, -X, +Y, -Y, +Z, -Z.
pub fn visible_faces(chunk: &ChunkData, store: &ChunkDataStore, chunk_coord: IVec3) -> (r: Vec<FaceQuad>)
    requires
        chunk.wf(),
        store.wf(),
        border_fits(chunk@, chunk_coord),
    ensures
        r@ == faces_upto(chunk@, cells_of(store@), chunk_coord, 32768),
        r@.len() <= 6 * 32768,
{
    let ghost cells = cells_of(store@);
    let mut out: Vec<FaceQuad> = Vec::new();
    let mut lx: usize = 0;
    while lx < 32
        invariant
            lx <= 32,
            chunk.wf(),
            store.wf(),
            cells == cells_of(store@),
            border_fits(chunk@, chunk_coord),
            out@ == faces_upto(chunk@, cells, chunk_coord, lx * 1024),
        decreases 32 - lx,
    {
        let mut ly: usize = 0;
        while ly < 32
            invariant
                lx < 32,
                ly <= 32,
                chunk.wf(),
                store.wf(),
                cells == cells_of(store@),
                border_fits(chunk@, chunk_coord),
                out@ == faces_upto(chunk@, cells, chunk_coord, lx * 1024 + ly * 32),
            decreases 32 - ly,
        {
            let mut lz: usize = 0;
            while lz < 32
                invariant
                    lx < 32,
                    ly < 32,
                    lz <= 32,
                    chunk.wf(),
                    store.wf(),
                    cells == cells_of(store@),
                    border_fits(chunk@, chunk_coord),
                    out@ == faces_upto(chunk@, cells, chunk_coord, lx * 1024 + ly * 32 + lz),
                decreases 32 - lz,
            {
                proof {
                    lemma_iter_pos(lx as int, ly as int, lz as int);
                }
                let ghost i = lx * 1024 + ly * 32 + lz;
                let block = chunk.get(lx, ly, lz);
                if !block.is_air() {
                    let local = IVec3 { x: lx as i32, y: ly as i32, z: lz as i32 };
                    let ghost base = out@;
                    let mut d: usize = 0;
                    while d < 6
                        invariant
                            lx < 32,
                            ly < 32,
                            lz < 32,
                            d <= 6,
                            chunk.wf(),
                            store.wf(),
                            cells == cells_of(store@),
                            border_fits(chunk@, chunk_coord),
                            local == ivec(lx as int, ly as int, lz as int),
                            block == decode_block(chunk@[cell_index(lx as int, ly as int, lz as int)]),
                            !(block is Air),
                            out@ == base + block_faces(chunk@, cells, chunk_coord, lx as int, ly as int, lz as int, d as int),
                        decreases 6 - d,
                    {
                        let face = Face::from_index(d);
                        let n = local.add(face.normal());
                        proof {
                            assert(border_face_fits(chunk@, chunk_coord, lx as int, ly as int, lz as int, d as int));
                            lemma_neighbor_offset(lx as int, ly as int, lz as int, d as int);

                        }
                        let neighbor = get_block_at(chunk, store, chunk_coord, n);
                        if neighbor.is_transparent() {
                            out.push(FaceQuad {
                                pos: UVec3 { x: lx as u32, y: ly as u32, z: lz as u32 },
                                face,
                                block,
                            });
                        }
                        d = d + 1;
                    }
                }
                lz = lz + 1;
            }
            ly = ly + 1;
        }
        lx = lx + 1;
    }
    proof {
        lemma_faces_upto_len(chunk@, cells, chunk_coord, 32768);
    }
    out
}

/// The triangle indices of `n` quads of four vertices each: quad `k` is drawn as
/// the triangles `(4k, 4k+1, 4k+2)` and `(4k, 4k+2, 4k+3)`.
pub fn mesh_indices(n: usize) -> (r: Vec<u32>)
    requires
        4 * n <= u32::MAX,
    ensures
        r@.len() == 6 * n,
        forall|k: int| #![trigger r@[6 * k]]
            0 <= k < n ==> {
                &&& r@[6 * k] == 4 * k
                &&& r@[6 * k + 1] == 4 * k + 1
                &&& r@[6 * k + 2] == 4 * k + 2
                &&& r@[6 * k + 3] == 4 * k
                &&& r@[6 * k + 4] == 4 * k + 2
                &&& r@[6 * k + 5] == 4 * k + 3
            },
{
    let mut r: Vec<u32> = Vec::new();
    let mut k: usize = 0;
    while k < n
        invariant
            k <= n,
            4 * n <= u32::MAX,
            r@.len() == 6 * k,
            forall|j: int| #![trigger r@[6 * j]]
                0 <= j < k ==> {
                    &&& r@[6 * j] == 4 * j
                    &&& r@[6 * j + 1] == 4 * j + 1
                    &&& r@[6 * j + 2] == 4 * j + 2
                    &&& r@[6 * j + 3] == 4 * j
                    &&& r@[6 * j + 4] == 4 * j + 2
                    &&& r@[6 * j + 5] == 4 * j + 3
                },
        decreases n - k,
    {
        let base = (4 * k) as u32;
        let ghost before = r@;
        r.push(base);
        r.push(base + 1);
        r.push(base + 2);
        r.push(base);
        r.push(base + 2);
        r.push(base + 3);
        assert forall|j: int| #![trigger r@[6 * j]] 0 <= j < k + 1 implies {
            &&& r@[6 * j] == 4 * j
            &&& r@[6 * j + 1] == 4 * j + 1
            &&& r@[6 * j + 2] == 4 * j + 2
            &&& r@[6 * j + 3] == 4 * j
            &&& r@[6 * j + 4] == 4 * j + 2
            &&& r@[6 * j + 5] == 4 * j + 3
        } by {
            if j < k {
                assert(before[6 * j] == 4 * j);
                assert(r@[6 * j + 1] == before[6 * j + 1]);
                assert(r@[6 * j + 2] == before[6 * j + 2]);
                assert(r@[6 * j + 3] == before[6 * j + 3]);
                assert(r@[6 * j + 4] == before[6 * j + 4]);
                assert(r@[6 * j + 5] == before[6 * j + 5]);
            }
        }
        k = k + 1;
    }
    r
}

/// True when quad `q` is a face of a non-air block of `chunk` whose neighbour
/// across that face is transparent.
pub open spec fn drawn_face_ok(chunk: Seq<u8>, cells: Map<IVec3, Seq<u8>>, cc: IVec3, q: FaceQuad) -> bool {
    let x = q.pos.x as int;
    let y = q.pos.y as int;
    let z = q.pos.z as int;
    &&& in_chunk(x, y, z)
    &&& q.block == decode_block(chunk[cell_index(x, y, z)])
    &&& !(q.block is Air)
    &&& transparent(block_near(chunk, cells, cc, add_spec(ivec(x, y, z), face_normal(q.face))))
}

proof fn lemma_block_faces_sound(chunk: Seq<u8>, cells: Map<IVec3, Seq<u8>>, cc: IVec3, x: int, y: int, z: int, d: int)
    requires
        in_chunk(x, y, z),
        !(decode_block(chunk[cell_index(x, y, z)]) is Air),
    ensures
        forall|i: int| 0 <= i < block_faces(chunk, cells, cc, x, y, z, d).len() ==>
            drawn_face_ok(chunk, cells, cc, #[trigger] block_faces(chunk, cells, cc, x, y, z, d)[i]),
    decreases d,
{
    if d > 0 {
        lemma_block_faces_sound(chunk, cells, cc, x, y, z, d - 1);
        let prev = block_faces(chunk, cells, cc, x, y, z, d - 1);
        let f = face_at(d - 1);
        let q = FaceQuad {
            pos: UVec3 { x: x as u32, y: y as u32, z: z as u32 },
            face: f,
            block: decode_block(chunk[cell_index(x, y, z)]),
        };
        assert(q.pos.x as int == x && q.pos.y as int == y && q.pos.z as int == z);
        let n = add_spec(ivec(x, y, z), face_normal(f));
        if transparent(block_near(chunk, cells, cc, n)) {
            assert(drawn_face_ok(chunk, cells, cc, q));
            let cur = prev.push(q);
            assert forall|i: int| 0 <= i < cur.len() implies drawn_face_ok(chunk, cells, cc, #[trigger] cur[i]) by {
                if i < prev.len() {
                    assert(cur[i] == prev[i]);
                }
            }
        }
    }
}

proof fn lemma_block_faces_complete(chunk: Seq<u8>, cells: Map<IVec3, Seq<u8>>, cc: IVec3, x: int, y: int, z: int, d: int, e: int)
    requires
        0 <= e < d,
        transparent(block_near(chunk, cells, cc, add_spec(ivec(x, y, z), face_normal(face_at(e))))),
    ensures
        block_faces(chunk, cells, cc, x, y, z, d).contains(FaceQuad {
            pos: UVec3 { x: x as u32, y: y as u32, z: z as u32 },
            face: face_at(e),
            block: decode_block(chunk[cell_index(x, y, z)]),
        }),
    decreases d,
{
    let q = FaceQuad {
        pos: UVec3 { x: x as u32, y: y as u32, z: z as u32 },
        face: face_at(e),
        block: decode_block(chunk[cell_index(x, y, z)]),
    };
    let prev = block_faces(chunk, cells, cc, x, y, z, d - 1);
    if e == d - 1 {
        assert(block_faces(chunk, cells, cc, x, y, z, d) == prev.push(q));
        assert(prev.push(q)[prev.len() as int] == q);
    } else {
        lemma_block_faces_complete(chunk, cells, cc, x, y, z, d - 1, e);
        let j = choose|j: int| 0 <= j < prev.len() && prev[j] == q;
        let cur = block_faces(chunk, cells, cc, x, y, z, d);
        assert(cur[j] == q);
    }
}

/// Every drawn face belongs to a non-air block of the chunk and looks onto a
/// transparent block (air, glass or leaves, or an unloaded neighbour).
pub proof fn lemma_faces_sound(chunk: Seq<u8>, cells: Map<IVec3, Seq<u8>>, cc: IVec3, n: int)
    requires
        n <= 32768,
    ensures
        forall|i: int| 0 <= i < faces_upto(chunk, cells, cc, n).len() ==>
            drawn_face_ok(chunk, cells, cc, #[trigger] faces_upto(chunk, cells, cc, n)[i]),
    decreases n,
{
    if n > 0 {
        lemma_faces_sound(chunk, cells, cc, n - 1);
        let (x, y, z) = iter_pos(n - 1);
        assert(in_chunk(x, y, z)) by {
            assert(0 <= (n - 1) / 1024 < 32) by (nonlinear_arith)
                requires 0 <= n - 1 < 32768;
        }
        let prev = faces_upto(chunk, cells, cc, n - 1);
        if !(decode_block(chunk[cell_index(x, y, z)]) is Air) {
            lemma_block_faces_sound(chunk, cells, cc, x, y, z, 6);
            let b = block_faces(chunk, cells, cc, x, y, z, 6);
            assert(faces_upto(chunk, cells, cc, n) == prev + b);
            assert forall|i: int| 0 <= i < (prev + b).len() implies drawn_face_ok(chunk, cells, cc, #[trigger] (prev + b)[i]) by {
                if i >= prev.len() {
                    assert((prev + b)[i] == b[i - prev.len()]);
                } else {
                    assert((prev + b)[i] == prev[i]);
                }
            }
        } else {
            assert(faces_upto(chunk, cells, cc, n) == prev);
        }
    }
}

/// Every face of a non-air block that looks onto a transparent block is drawn.
pub proof fn lemma_faces_complete(chunk: Seq<u8>, cells: Map<IVec3, Seq<u8>>, cc: IVec3, x: int, y: int, z: int, e: int)
    requires
        in_chunk(x, y, z),
        0 <= e < 6,
        !(decode_block(chunk[cell_index(x, y, z)]) is Air),
        transparent(block_near(chunk, cells, cc, add_spec(ivec(x, y, z), face_normal(face_at(e))))),
    ensures
        faces_upto(chunk, cells, cc, 32768).contains(FaceQuad {
            pos: UVec3 { x: x as u32, y: y as u32, z: z as u32 },
            face: face_at(e),
            block: decode_block(chunk[cell_index(x, y, z)]),
        }),
{
    lemma_iter_pos(x, y, z);
    lemma_faces_contain(chunk, cells, cc, x * 1024 + y * 32 + z, 32768, e);
}

proof fn lemma_faces_contain(chunk: Seq<u8>, cells: Map<IVec3, Seq<u8>>, cc: IVec3, i: int, n: int, e: int)
    requires
        0 <= i < n,
        0 <= e < 6,
        !(decode_block(chunk[cell_index(iter_pos(i).0, iter_pos(i).1, iter_pos(i).2)]) is Air),
        transparent(block_near(chunk, cells, cc, add_spec(ivec(iter_pos(i).0, iter_pos(i).1, iter_pos(i).2), face_normal(face_at(e))))),
    ensures
        faces_upto(chunk, cells, cc, n).contains(FaceQuad {
            pos: UVec3 { x: iter_pos(i).0 as u32, y: iter_pos(i).1 as u32, z: iter_pos(i).2 as u32 },
            face: face_at(e),
            block: decode_block(chunk[cell_index(iter_pos(i).0, iter_pos(i).1, iter_pos(i).2)]),
        }),
    decreases n,
{
    let (x, y, z) = iter_pos(i);
    let q = FaceQuad {
        pos: UVec3 { x: x as u32, y: y as u32, z: z as u32 },
        face: face_at(e),
        block: decode_block(chunk[cell_index(x, y, z)]),
    };
    let prev = faces_upto(chunk, cells, cc, n - 1);
    if i == n - 1 {
        lemma_block_faces_complete(chunk, cells, cc, x, y, z, 6, e);
        let b = block_faces(chunk, cells, cc, x, y, z, 6);
        let j = choose|j: int| 0 <= j < b.len() && b[j] == q;
        assert((prev + b)[prev.len() + j] == q);
    } else {
        lemma_faces_contain(chunk, cells, cc, i, n - 1, e);
        let j = choose|j: int| 0 <= j < prev.len() && prev[j] == q;
        let (x2, y2, z2) = iter_pos(n - 1);
        if !(decode_block(chunk[cell_index(x2, y2, z2)]) is Air) {
            let b = block_faces(chunk, cells, cc, x2, y2, z2, 6);
            assert((prev + b)[j] == q);
        }
    }
}

} // verus!
