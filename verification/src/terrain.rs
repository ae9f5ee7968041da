//! Terrain layout of a chunk from per-column samples: layers by height and
//! biome, caves, and trees placed by a deterministic hash of the column.
//!
//! The noise fields (surface height, biome and cave density) are sampled by
//! the caller; this module decides every block from those samples.
use vstd::prelude::*;
use crate::block::{BlockType, block_code, decode_block};
use crate::chunk_data::{ChunkData, cell_index, in_chunk};
use crate::coords::{IVec3, ChunkCoord, fits_i32, CHUNK_VOLUME};

verus! {

/// The biome of a column.
#[derive(Debug, Clone, Copy, PartialEq, Eq, Structural)]
pub enum Biome {
    Plains,
    Desert,
    Forest,
}

/// The noise samples of one chunk: for each column `(x, z)` at position
/// `x * 32 + z` its surface height and biome, and for each block at its byte
/// position whether the cave noise there is above the cave threshold.
pub struct TerrainSamples {
    pub surface: Vec<i32>,
    pub biome: Vec<Biome>,
    pub cave: Vec<bool>,
}

impl TerrainSamples {
    /// One sample per column and one cave flag per block.
    pub open spec fn wf(self) -> bool {
        &&& self.surface@.len() == 1024
        &&& self.biome@.len() == 1024
        &&& self.cave@.len() == CHUNK_VOLUME
    }
}

/// Terrain generator; its seed also seeds the tree placement hash.
pub struct TerrainGenerator {
    seed: u32,
}

/// The block at height `wy` of a column whose surface is at `surface`:
/// bedrock below 0, air above the surface, the surface block (sand in deserts,
/// stone above height 85, grass otherwise), three layers of sand or dirt below
/// it, then stone, hollowed into air where the cave noise is high above height 5.
pub open spec fn terrain_block(wy: int, surface: int, biome: Biome, cave: bool) -> BlockType {
    if wy < 0 {
        BlockType::Bedrock
    } else if wy > surface {
        BlockType::Air
    } else if wy == surface {
        match biome {
            Biome::Desert => BlockType::Sand,
            _ => if surface > 85 {
                BlockType::Stone
            } else {
                BlockType::Grass
            },
        }
    } else if wy > surface - 4 {
        match biome {
            Biome::Desert => BlockType::Sand,
            _ => BlockType::Dirt,
        }
    } else if cave && wy > 5 {
        BlockType::Air
    } else {
        BlockType::Stone
    }
}

/// The tree placement hash of world column `(wx, wz)`.
pub open spec fn tree_hash(seed: u32, wx: i32, wz: i32) -> u32 {
    let h0 = seed ^ vstd::wrapping::u32_specs::wrapping_mul(wx as u32, 0x9e3779b9u32);
    let h1 = h0 ^ vstd::wrapping::u32_specs::wrapping_mul(wz as u32, 0x6c62272eu32);
    let h2 = h1 ^ (h1 >> 16u32);
    let h3 = vstd::wrapping::u32_specs::wrapping_mul(h2, 0x45d9f3bu32);
    h3 ^ (h3 >> 16u32)
}

/// A tree grows on world column `(wx, wz)` when its hash is a multiple of 50.
pub open spec fn has_tree(seed: u32, wx: i32, wz: i32) -> bool {
    tree_hash(seed, wx, wz) % 50 == 0
}

/// The chunk bytes after the layer pass: every block from `terrain_block`.
pub open spec fn layered(base_y: int, samples: TerrainSamples) -> Seq<u8> {
    Seq::new(
        CHUNK_VOLUME as nat,
        |i: int|
            {
                let x = i % 32;
                let z = (i / 32) % 32;
                let y = i / 1024;
                let col = x * 32 + z;
                block_code(terrain_block(base_y + y, samples.surface@[col] as int, samples.biome@[col], samples.cave@[i]))
            },
    )
}

/// `c` with block `b` written at local position `(x, y, z)` when that position
/// is inside the chunk.
pub open spec fn put_if_inside(c: Seq<u8>, x: int, y: int, z: int, b: BlockType) -> Seq<u8> {
    if in_chunk(x, y, z) {
        c.update(cell_index(x, y, z), block_code(b))
    } else {
        c
    }
}

/// The trunk blocks `1..=i` above the surface, placed as wood where inside the chunk.
pub open spec fn trunk(c: Seq<u8>, lx: int, surface: int, lz: int, base_y: int, i: int) -> Seq<u8>
    decreases i,
{
    if i <= 0 {
        c
    } else {
        put_if_inside(trunk(c, lx, surface, lz, base_y, i - 1), lx, surface + i - base_y, lz, BlockType::Wood)
    }
}

/// The leaf offset `(dx, dy, dz)` at step `t` of the leaf scan: dy slowest
/// from -1 to 1, then dx from -2 to 2, then dz fastest from -2 to 2.
pub open spec fn leaf_offset(t: int) -> (int, int, int) {
    ((t / 5) % 5 - 2, t / 25 - 1, t % 5 - 2)
}

/// The first `t` steps of the leaf scan: leaves go where the block is air and
/// inside the chunk, skipping the four corners of each layer.
pub open spec fn leaves(c: Seq<u8>, lx: int, surface: int, lz: int, base_y: int, t: int) -> Seq<u8>
    decreases t,
{
    if t <= 0 {
        c
    } else {
        let prev = leaves(c, lx, surface, lz, base_y, t - 1);
        let (dx, dy, dz) = leaf_offset(t - 1);
        let x = lx + dx;
        let y = surface + 4 + dy - base_y;
        let z = lz + dz;
        if (dx == 2 || dx == -2) && (dz == 2 || dz == -2) {
            prev
        } else if in_chunk(x, y, z) && decode_block(prev[cell_index(x, y, z)]) is Air {
            prev.update(cell_index(x, y, z), block_code(BlockType::Leaves))
        } else {
            prev
        }
    }
}

/// A tree at column `(lx, lz)` whose surface is at `surface`: a trunk of four
/// wood blocks, then a crown of leaves around the trunk's top.
pub open spec fn tree(c: Seq<u8>, lx: int, surface: int, lz: int, base_y: int) -> Seq<u8> {
    leaves(trunk(c, lx, surface, lz, base_y, 4), lx, surface, lz, base_y, 75)
}

/// The column `(lx, lz)` at step `k` of the tree scan over columns 3..29.
pub open spec fn tree_column(k: int) -> (int, int) {
    (k / 26 + 3, k % 26 + 3)
}

/// The chunk after the first `k` steps of the tree scan: a tree on each
/// non-desert column whose world column has a tree.
pub open spec fn trees(c: Seq<u8>, seed: u32, base: IVec3, samples: TerrainSamples, k: int) -> Seq<u8>
    decreases k,
{
    if k <= 0 {
        c
    } else {
        let prev = trees(c, seed, base, samples, k - 1);
        let (lx, lz) = tree_column(k - 1);
        let col = lx * 32 + lz;
        if samples.biome@[col] is Desert || !has_tree(seed, (base.x + lx) as i32, (base.z + lz) as i32) {
            prev
        } else {
            tree(prev, lx, samples.surface@[col] as int, lz, base.y as int)
        }
    }
}

/// The generated chunk at chunk coordinate `coord`.
pub open spec fn generated(seed: u32, coord: IVec3, samples: TerrainSamples) -> Seq<u8> {
    let base = IVec3 { x: (coord.x * 32) as i32, y: (coord.y * 32) as i32, z: (coord.z * 32) as i32 };
    trees(layered(base.y as int, samples), seed, base, samples, 676)
}

impl TerrainGenerator {
    pub fn new(seed: u32) -> (r: Self)
        ensures
            r.seed() == seed,
    {
        TerrainGenerator { seed }
    }

    pub closed spec fn seed(self) -> u32 {
        self.seed
    }

    /// The block at height `wy` of a column; `cave_noise` says whether the cave
    /// noise at that block is above the cave threshold.
    pub fn block_at(&self, wy: i32, surface: i32, biome: Biome, cave_noise: bool) -> (r: BlockType)
        ensures
            r == terrain_block(wy as int, surface as int, biome, cave_noise),
    {
        if wy < 0 {
            BlockType::Bedrock
        } else if wy > surface {
            BlockType::Air
        } else if wy == surface {
            match biome {
                Biome::Desert => BlockType::Sand,
                _ => if surface > 85 {
                    BlockType::Stone
                } else {
                    BlockType::Grass
                },
            }
        } else if (wy as i64) > (surface as i64) - 4 {
            match biome {
                Biome::Desert => BlockType::Sand,
                _ => BlockType::Dirt,
            }
        } else if cave_noise && wy > 5 {
            BlockType::Air
        } else {
            BlockType::Stone
        }
    }

    /// True when a tree grows on world column `(wx, wz)` (a deterministic hash).
    pub fn should_place_tree(&self, wx: i32, wz: i32) -> (r: bool)
        ensures
            r == has_tree(self.seed(), wx, wz),
    {
        let mut h: u32 = self.seed;
        h = h ^ (wx as u32).wrapping_mul(0x9e3779b9u32);
        h = h ^ (wz as u32).wrapping_mul(0x6c62272eu32);
        h = h ^ (h >> 16u32);
        h = h.wrapping_mul(0x45d9f3bu32);
        h = h ^ (h >> 16u32);
        h % 50 == 0
    }
}

/// Places a tree with its trunk at column `(lx, lz)` on a surface at height
/// `surface`, in a chunk whose lowest block is at height `base_y`.
fn place_tree(chunk: &mut ChunkData, lx: usize, surface: i32, lz: usize, base_y: i32)
    requires
        old(chunk).wf(),
        lx < 32,
        lz < 32,
    ensures
        final(chunk).wf(),
        final(chunk)@ == tree(old(chunk)@, lx as int, surface as int, lz as int, base_y as int),
{
    let mut i: i64 = 1;
    while i <= 4
        invariant
            1 <= i <= 5,
            lx < 32,
            lz < 32,
            chunk.wf(),
            chunk@ == trunk(old(chunk)@, lx as int, surface as int, lz as int, base_y as int, i - 1),
        decreases 5 - i,
    {
        let ly = surface as i64 + i - base_y as i64;
        if 0 <= ly && ly < 32 {
            chunk.set(lx, ly as usize, lz, BlockType::Wood);
        }
        i = i + 1;
    }
    let ghost trunked = chunk@;
    let mut t: i64 = 0;
    while t < 75
        invariant
            0 <= t <= 75,
            lx < 32,
            lz < 32,
            chunk.wf(),
            trunked == trunk(old(chunk)@, lx as int, surface as int, lz as int, base_y as int, 4),
            chunk@ == leaves(trunked, lx as int, surface as int, lz as int, base_y as int, t as int),
        decreases 75 - t,
    {
        let dx = (t / 5) % 5 - 2;
        let dy = t / 25 - 1;
        let dz = t % 5 - 2;
        if !((dx == 2 || dx == -2) && (dz == 2 || dz == -2)) {
            let leaf_lx = lx as i64 + dx;
            let leaf_lz = lz as i64 + dz;
            let leaf_ly = surface as i64 + 4 + dy - base_y as i64;
            if leaf_lx >= 0 && leaf_lx < 32 && leaf_lz >= 0 && leaf_lz < 32 && leaf_ly >= 0 && leaf_ly < 32 {
                let lx2 = leaf_lx as usize;
                let ly2 = leaf_ly as usize;
                let lz2 = leaf_lz as usize;
                if matches!(chunk.get(lx2, ly2, lz2), BlockType::Air) {
                    chunk.set(lx2, ly2, lz2, BlockType::Leaves);
                }
            }
        }
        t = t + 1;
    }
}

impl TerrainGenerator {
    /// The voxels of the chunk at `coord`: every block from its column's samples,
    /// then the trees, on the columns 3..29 of both axes so that each tree
    /// stays inside the chunk horizontally.
    pub fn generate_chunk(&self, coord: &ChunkCoord, samples: &TerrainSamples) -> (r: ChunkData)
        requires
            samples.wf(),
            fits_i32(coord.0.x * 32, coord.0.y * 32, coord.0.z * 32),
            fits_i32(coord.0.x * 32 + 31, coord.0.y * 32 + 31, coord.0.z * 32 + 31),
        ensures
            r.wf(),
            r@ == generated(self.seed(), coord.0, *samples),
    {
        let base = IVec3 { x: coord.0.x * 32, y: coord.0.y * 32, z: coord.0.z * 32 };
        let mut blocks: Vec<u8> = Vec::new();
        let mut i: usize = 0;
        while i < CHUNK_VOLUME
            invariant
                i <= CHUNK_VOLUME,
                samples.wf(),
                base.y == coord.0.y * 32,
                fits_i32(coord.0.x * 32 + 31, coord.0.y * 32 + 31, coord.0.z * 32 + 31),
                blocks@ == layered(base.y as int, *samples).take(i as int),
            decreases CHUNK_VOLUME - i,
        {
            let x = i % 32;
            let z = (i / 32) % 32;
            let y = i / 1024;
            let col = x * 32 + z;
            let wy = base.y + y as i32;
            let block = self.block_at(wy, samples.surface[col], samples.biome[col], samples.cave[i]);
            blocks.push(block.to_u8());
            assert(layered(base.y as int, *samples).take(i + 1) =~= layered(base.y as int, *samples).take(i as int).push(
                block_code(block),
            ));
            i = i + 1;
        }
        assert(layered(base.y as int, *samples).take(CHUNK_VOLUME as int) =~= layered(base.y as int, *samples));
        let mut chunk = match ChunkData::from_raw(blocks) {
            Some(c) => c,
            None => ChunkData::new_empty(),
        };
        let mut k: usize = 0;
        while k < 676
            invariant
                k <= 676,
                samples.wf(),
                chunk.wf(),
                base == (IVec3 { x: (coord.0.x * 32) as i32, y: (coord.0.y * 32) as i32, z: (coord.0.z * 32) as i32 }),
                fits_i32(coord.0.x * 32 + 31, coord.0.y * 32 + 31, coord.0.z * 32 + 31),
                chunk@ == trees(layered(base.y as int, *samples), self.seed(), base, *samples, k as int),
            decreases 676 - k,
        {
            let lx = k / 26 + 3;
            let lz = k % 26 + 3;
            let col = lx * 32 + lz;
            if !matches!(samples.biome[col], Biome::Desert) {
                let wx = base.x + lx as i32;
                let wz = base.z + lz as i32;
                if self.should_place_tree(wx, wz) {
                    let surface = samples.surface[col];
                    place_tree(&mut chunk, lx, surface, lz, base.y);
                }
            }
            k = k + 1;
        }
        chunk
    }
}

proof fn lemma_trunk_local(c: Seq<u8>, lx: int, surface: int, lz: int, base_y: int, i: int, x: int, y: int, z: int)
    requires
        c.len() == CHUNK_VOLUME,
        in_chunk(x, y, z),
        x != lx || z != lz,
    ensures
        trunk(c, lx, surface, lz, base_y, i).len() == CHUNK_VOLUME,
        trunk(c, lx, surface, lz, base_y, i)[cell_index(x, y, z)] == c[cell_index(x, y, z)],
    decreases i,
{
    if i > 0 {
        lemma_trunk_local(c, lx, surface, lz, base_y, i - 1, x, y, z);
        let ty = surface + i - base_y;
        if in_chunk(lx, ty, lz) {
            crate::chunk_data::lemma_cell_index_injective(lx, ty, lz, x, y, z);
        }
    }
}

proof fn lemma_leaves_local(c: Seq<u8>, lx: int, surface: int, lz: int, base_y: int, t: int, x: int, y: int, z: int)
    requires
        c.len() == CHUNK_VOLUME,
        in_chunk(x, y, z),
        x < lx - 2 || x > lx + 2 || z < lz - 2 || z > lz + 2,
        t <= 75,
    ensures
        leaves(c, lx, surface, lz, base_y, t).len() == CHUNK_VOLUME,
        leaves(c, lx, surface, lz, base_y, t)[cell_index(x, y, z)] == c[cell_index(x, y, z)],
    decreases t,
{
    if t > 0 {
        lemma_leaves_local(c, lx, surface, lz, base_y, t - 1, x, y, z);
        let (dx, dy, dz) = leaf_offset(t - 1);
        assert(-2 <= dx <= 2 && -2 <= dz <= 2);
        let ly = surface + 4 + dy - base_y;
        if in_chunk(lx + dx, ly, lz + dz) {
            crate::chunk_data::lemma_cell_index_injective(lx + dx, ly, lz + dz, x, y, z);
        }
    }
}

/// A tree changes only blocks within two columns of its trunk on x and z.
pub proof fn lemma_tree_local(c: Seq<u8>, lx: int, surface: int, lz: int, base_y: int, x: int, y: int, z: int)
    requires
        c.len() == CHUNK_VOLUME,
        in_chunk(x, y, z),
        x < lx - 2 || x > lx + 2 || z < lz - 2 || z > lz + 2,
    ensures
        tree(c, lx, surface, lz, base_y).len() == CHUNK_VOLUME,
        tree(c, lx, surface, lz, base_y)[cell_index(x, y, z)] == c[cell_index(x, y, z)],
{
    lemma_trunk_local(c, lx, surface, lz, base_y, 4, x, y, z);
    lemma_leaves_local(trunk(c, lx, surface, lz, base_y, 4), lx, surface, lz, base_y, 75, x, y, z);
}

/// Trees keep out of the two outermost columns on each side of the chunk:
/// there, and only from the layer pass, come the blocks of a generated chunk.
pub proof fn lemma_trees_keep_rim(c: Seq<u8>, seed: u32, base: IVec3, samples: TerrainSamples, k: int, x: int, y: int, z: int)
    requires
        c.len() == CHUNK_VOLUME,
        samples.wf(),
        in_chunk(x, y, z),
        x <= 0 || x >= 31 || z <= 0 || z >= 31,
        k <= 676,
    ensures
        trees(c, seed, base, samples, k).len() == CHUNK_VOLUME,
        trees(c, seed, base, samples, k)[cell_index(x, y, z)] == c[cell_index(x, y, z)],
    decreases k,
{
    if k > 0 {
        lemma_trees_keep_rim(c, seed, base, samples, k - 1, x, y, z);
        let (lx, lz) = tree_column(k - 1);
        assert(3 <= lx <= 28) by {
            assert(0 <= (k - 1) / 26 <= 25) by (nonlinear_arith)
                requires 0 <= k - 1 < 676;
        }
        let col = lx * 32 + lz;
        let prev = trees(c, seed, base, samples, k - 1);
        if !(samples.biome@[col] is Desert || !has_tree(seed, (base.x + lx) as i32, (base.z + lz) as i32)) {
            lemma_tree_local(prev, lx, samples.surface@[col] as int, lz, base.y as int, x, y, z);
        }
    }
}

proof fn lemma_trunk_wood(c: Seq<u8>, lx: int, surface: int, lz: int, base_y: int, i: int, j: int)
    requires
        c.len() == CHUNK_VOLUME,
        0 <= i,
    ensures
        trunk(c, lx, surface, lz, base_y, i).len() == CHUNK_VOLUME,
        (1 <= j <= i && in_chunk(lx, surface + j - base_y, lz)) ==> decode_block(
            trunk(c, lx, surface, lz, base_y, i)[cell_index(lx, surface + j - base_y, lz)],
        ) is Wood,
    decreases i,
{
    if i > 0 {
        lemma_trunk_wood(c, lx, surface, lz, base_y, i - 1, j);
        let ty = surface + i - base_y;
        if in_chunk(lx, ty, lz) && 1 <= j < i && in_chunk(lx, surface + j - base_y, lz) {
            crate::chunk_data::lemma_cell_index_injective(lx, ty, lz, lx, surface + j - base_y, lz);
        }
        if in_chunk(lx, ty, lz) {
            crate::chunk_data::lemma_cell_index_injective(lx, ty, lz, lx, ty, lz);
        }
    }
}

proof fn lemma_trunk_keeps_wood(c: Seq<u8>, lx: int, surface: int, lz: int, base_y: int, i: int, idx: int)
    requires
        c.len() == CHUNK_VOLUME,
        0 <= idx < CHUNK_VOLUME,
        decode_block(c[idx]) is Wood,
        0 <= i,
    ensures
        trunk(c, lx, surface, lz, base_y, i).len() == CHUNK_VOLUME,
        decode_block(trunk(c, lx, surface, lz, base_y, i)[idx]) is Wood,
    decreases i,
{
    if i > 0 {
        lemma_trunk_keeps_wood(c, lx, surface, lz, base_y, i - 1, idx);
        let ty = surface + i - base_y;
        if in_chunk(lx, ty, lz) {
            crate::chunk_data::lemma_cell_index_injective(lx, ty, lz, lx, ty, lz);
        }
    }
}

proof fn lemma_leaves_keep_solid(c: Seq<u8>, lx: int, surface: int, lz: int, base_y: int, t: int, idx: int)
    requires
        c.len() == CHUNK_VOLUME,
        0 <= idx < CHUNK_VOLUME,
        !(decode_block(c[idx]) is Air),
        0 <= t,
    ensures
        leaves(c, lx, surface, lz, base_y, t).len() == CHUNK_VOLUME,
        leaves(c, lx, surface, lz, base_y, t)[idx] == c[idx],
    decreases t,
{
    if t > 0 {
        lemma_leaves_keep_solid(c, lx, surface, lz, base_y, t - 1, idx);
        let (dx, dy, dz) = leaf_offset(t - 1);
        let x = lx + dx;
        let y = surface + 4 + dy - base_y;
        let z = lz + dz;
        if in_chunk(x, y, z) {
            crate::chunk_data::lemma_cell_index_injective(x, y, z, x, y, z);
        }
    }
}

proof fn lemma_trees_len(c: Seq<u8>, seed: u32, base: IVec3, samples: TerrainSamples, k: int)
    requires
        c.len() == CHUNK_VOLUME,
        samples.wf(),
        0 <= k <= 676,
    ensures
        trees(c, seed, base, samples, k).len() == CHUNK_VOLUME,
    decreases k,
{
    if k > 0 {
        lemma_trees_keep_rim(c, seed, base, samples, k, 0, 0, 0);
    }
}

proof fn lemma_trees_trunk(c: Seq<u8>, seed: u32, base: IVec3, samples: TerrainSamples, k: int, k0: int, j: int)
    requires
        c.len() == CHUNK_VOLUME,
        samples.wf(),
        0 <= k0 < k <= 676,
        1 <= j <= 4,
        ({
            let (lx, lz) = tree_column(k0);
            let col = lx * 32 + lz;
            &&& !(samples.biome@[col] is Desert)
            &&& has_tree(seed, (base.x + lx) as i32, (base.z + lz) as i32)
            &&& in_chunk(lx, samples.surface@[col] + j - base.y, lz)
        }),
    ensures
        ({
            let (lx, lz) = tree_column(k0);
            let col = lx * 32 + lz;
            decode_block(trees(c, seed, base, samples, k)[cell_index(lx, samples.surface@[col] + j - base.y, lz)]) is Wood
        }),
    decreases k,
{
    let (lx, lz) = tree_column(k0);
    let col = lx * 32 + lz;
    let sf = samples.surface@[col] as int;
    let idx = cell_index(lx, sf + j - base.y, lz);
    assert(0 <= k0 / 26 <= 25) by (nonlinear_arith)
        requires 0 <= k0 < 676;
    crate::chunk_data::lemma_cell_index_injective(lx, sf + j - base.y, lz, lx, sf + j - base.y, lz);
    lemma_trees_len(c, seed, base, samples, k - 1);
    let prev = trees(c, seed, base, samples, k - 1);
    if k == k0 + 1 {
        lemma_trunk_wood(prev, lx, sf, lz, base.y as int, 4, j);
        lemma_leaves_keep_solid(trunk(prev, lx, sf, lz, base.y as int, 4), lx, sf, lz, base.y as int, 75, idx);
    } else {
        lemma_trees_trunk(c, seed, base, samples, k - 1, k0, j);
        let (lx1, lz1) = tree_column(k - 1);
        let col1 = lx1 * 32 + lz1;
        if !(samples.biome@[col1] is Desert || !has_tree(seed, (base.x + lx1) as i32, (base.z + lz1) as i32)) {
            let sf1 = samples.surface@[col1] as int;
            lemma_trunk_keeps_wood(prev, lx1, sf1, lz1, base.y as int, 4, idx);
            lemma_leaves_keep_solid(trunk(prev, lx1, sf1, lz1, base.y as int, 4), lx1, sf1, lz1, base.y as int, 75, idx);
        }
    }
}

/// Every tree grows its whole trunk, in whichever chunk each trunk block
/// lies: for a column that is not desert and whose world column has a tree,
/// each of the four blocks above its surface that lies at a height of the
/// generated chunk holds wood, also when the surface itself is in the chunk
/// below.
pub proof fn lemma_tree_trunk_in_chunk(seed: u32, coord: IVec3, samples: TerrainSamples, lx: int, lz: int, j: int)
    requires
        samples.wf(),
        3 <= lx <= 28,
        3 <= lz <= 28,
        1 <= j <= 4,
        fits_i32(coord.x * 32, coord.y * 32, coord.z * 32),
        fits_i32(coord.x * 32 + 31, coord.y * 32 + 31, coord.z * 32 + 31),
        !(samples.biome@[lx * 32 + lz] is Desert),
        has_tree(seed, (coord.x * 32 + lx) as i32, (coord.z * 32 + lz) as i32),
        coord.y * 32 <= samples.surface@[lx * 32 + lz] + j < coord.y * 32 + 32,
    ensures
        decode_block(
            generated(seed, coord, samples)[cell_index(lx, samples.surface@[lx * 32 + lz] + j - coord.y * 32, lz)],
        ) is Wood,
{
    let base = IVec3 { x: (coord.x * 32) as i32, y: (coord.y * 32) as i32, z: (coord.z * 32) as i32 };
    let k0 = (lx - 3) * 26 + (lz - 3);
    assert(0 <= k0 < 676 && k0 / 26 == lx - 3 && k0 % 26 == lz - 3) by (nonlinear_arith)
        requires 3 <= lx <= 28, 3 <= lz <= 28, k0 == (lx - 3) * 26 + (lz - 3);
    assert(tree_column(k0) == (lx, lz));
    let c = layered(base.y as int, samples);
    lemma_trees_trunk(c, seed, base, samples, 676, k0, j);
}

} // verus!
