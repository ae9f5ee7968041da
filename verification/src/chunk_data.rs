//! The voxels of one chunk: 32 x 32 x 32 blocks, one byte each.
use vstd::prelude::*;
use crate::block::{BlockType, block_code, decode_block, decode};
use crate::coords::{IVec3, CHUNK_VOLUME};

verus! {

/// Position of the byte of local block `(x, y, z)`: y-major, then z, then x.
pub open spec fn cell_index(x: int, y: int, z: int) -> int {
    y * 1024 + z * 32 + x
}

/// True when `(x, y, z)` is inside a chunk.
pub open spec fn in_chunk(x: int, y: int, z: int) -> bool {
    0 <= x < 32 && 0 <= y < 32 && 0 <= z < 32
}

/// The voxel data of one chunk.
#[derive(Clone)]
pub struct ChunkData {
    blocks: Vec<u8>,
}

impl View for ChunkData {
    type V = Seq<u8>;

    closed spec fn view(&self) -> Seq<u8> {
        self.blocks@
    }
}

impl ChunkData {
    /// A chunk holds exactly one byte per block.
    pub open spec fn wf(self) -> bool {
        self@.len() == CHUNK_VOLUME
    }

    /// The block read at byte position `i`.
    pub open spec fn block_at_index(self, i: int) -> BlockType {
        decode_block(self@[i])
    }

    /// The block read at local position `(x, y, z)`.
    pub open spec fn block_at(self, x: int, y: int, z: int) -> BlockType {
        self.block_at_index(cell_index(x, y, z))
    }

    /// The chunk with the byte of block `b` written at position `i`.
    pub open spec fn with_block(self, i: int, b: BlockType) -> Seq<u8> {
        self@.update(i, block_code(b))
    }

    /// A chunk of air.
    pub fn new_empty() -> (r: Self)
        ensures
            r@ == Seq::new(CHUNK_VOLUME as nat, |i: int| 0u8),
            r.wf(),
    {
        let mut blocks: Vec<u8> = Vec::new();
        let mut i: usize = 0;
        while i < CHUNK_VOLUME
            invariant
                i <= CHUNK_VOLUME,
                blocks@ == Seq::new(i as nat, |j: int| 0u8),
            decreases CHUNK_VOLUME - i,
        {
            blocks.push(BlockType::Air.to_u8());
            i = i + 1;
        }
        ChunkData { blocks }
    }

    /// A chunk from its raw bytes; `None` unless there is exactly one byte per block.
    pub fn from_raw(bytes: Vec<u8>) -> (r: Option<Self>)
        ensures
            r is Some <==> bytes@.len() == CHUNK_VOLUME,
            r matches Some(c) ==> c@ == bytes@ && c.wf(),
    {
        if bytes.len() == CHUNK_VOLUME {
            Some(ChunkData { blocks: bytes })
        } else {
            None
        }
    }

    /// Byte position of local block `(x, y, z)`.
    pub fn index(x: usize, y: usize, z: usize) -> (r: usize)
        requires
            cell_index(x as int, y as int, z as int) < CHUNK_VOLUME,
        ensures
            r == cell_index(x as int, y as int, z as int),
    {
        y * 32 * 32 + z * 32 + x
    }

    /// The block at local position `(x, y, z)`; bytes that stand for no kind read as air.
    pub fn get(&self, x: usize, y: usize, z: usize) -> (r: BlockType)
        requires
            self.wf(),
            cell_index(x as int, y as int, z as int) < CHUNK_VOLUME,
        ensures
            r == self.block_at(x as int, y as int, z as int),
    {
        decode(self.blocks[Self::index(x, y, z)])
    }

    /// The block at a signed local position; positions outside the chunk read as air.
    pub fn get_ivec(&self, pos: IVec3) -> (r: BlockType)
        requires
            self.wf(),
        ensures
            r == (if in_chunk(pos.x as int, pos.y as int, pos.z as int) {
                self.block_at(pos.x as int, pos.y as int, pos.z as int)
            } else {
                BlockType::Air
            }),
    {
        if pos.x < 0 || pos.y < 0 || pos.z < 0 || pos.x >= 32 || pos.y >= 32 || pos.z >= 32 {
            return BlockType::Air;
        }
        self.get(pos.x as usize, pos.y as usize, pos.z as usize)
    }

    /// Writes block `block` at local position `(x, y, z)`.
    pub fn set(&mut self, x: usize, y: usize, z: usize, block: BlockType)
        requires
            old(self).wf(),
            cell_index(x as int, y as int, z as int) < CHUNK_VOLUME,
        ensures
            final(self)@ == old(self).with_block(cell_index(x as int, y as int, z as int), block),
            final(self).wf(),
    {
        let i = Self::index(x, y, z);
        self.blocks.set(i, block.to_u8());
    }

    /// True when every byte of the chunk is air.
    pub fn is_empty(&self) -> (r: bool)
        ensures
            r == (forall|i: int| 0 <= i < self@.len() ==> #[trigger] self@[i] == 0u8),
    {
        let n = self.blocks.len();
        let mut i: usize = 0;
        while i < n
            invariant
                n == self@.len(),
                i <= n,
                forall|j: int| 0 <= j < i ==> #[trigger] self@[j] == 0u8,
            decreases n - i,
        {
            if self.blocks[i] != BlockType::Air.to_u8() {
                return false;
            }
            i = i + 1;
        }
        true
    }

    /// The raw bytes of the chunk.
    pub fn raw(&self) -> (r: &[u8])
        ensures
            r@ == self@,
    {
        self.blocks.as_slice()
    }
}

/// Reading back a block just written gives that block.
pub proof fn lemma_get_after_set(c: Seq<u8>, i: int, b: BlockType)
    requires
        0 <= i < c.len(),
    ensures
        decode_block(c.update(i, block_code(b))[i]) == b,
{
}

/// Writing a block leaves every other byte as it was.
pub proof fn lemma_set_keeps_others(c: Seq<u8>, i: int, j: int, b: BlockType)
    requires
        0 <= i < c.len(),
        0 <= j < c.len(),
        i != j,
    ensures
        c.update(i, block_code(b))[j] == c[j],
{
}

/// True when every byte is the byte of a block kind (0 to 10).
pub open spec fn all_codes(c: Seq<u8>) -> bool {
    forall|i: int| 0 <= i < c.len() ==> #[trigger] c[i] <= 10
}

/// A chunk built with `new_empty` and `set` holds only the bytes of block
/// kinds: a chunk of air does, and writing a block keeps it so. Each byte of
/// such a chunk is the byte of the block read at its position.
pub proof fn lemma_codes_kept(c: Seq<u8>, i: int, b: BlockType)
    requires
        0 <= i < c.len(),
    ensures
        all_codes(Seq::new(CHUNK_VOLUME as nat, |j: int| 0u8)),
        all_codes(c) ==> all_codes(c.update(i, block_code(b))),
        all_codes(c) ==> forall|j: int| 0 <= j < c.len() ==> #[trigger] block_code(decode_block(c[j])) == c[j],
{
    assert forall|j: int| 0 <= j < c.len() && all_codes(c) implies #[trigger] block_code(decode_block(c[j])) == c[j] by {
        assert(c[j] <= 10);
    }
}

/// Distinct positions inside a chunk have distinct byte positions, all below the volume.
pub proof fn lemma_cell_index_injective(x1: int, y1: int, z1: int, x2: int, y2: int, z2: int)
    requires
        in_chunk(x1, y1, z1),
        in_chunk(x2, y2, z2),
    ensures
        0 <= cell_index(x1, y1, z1) < CHUNK_VOLUME,
        cell_index(x1, y1, z1) == cell_index(x2, y2, z2) ==> (x1 == x2 && y1 == y2 && z1 == z2),
{
}

} // verus!
