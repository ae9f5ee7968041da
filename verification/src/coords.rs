//! Integer positions: world block positions, chunk coordinates, local
//! positions inside a chunk, and the six face directions.
use vstd::prelude::*;

verus! {

/// Chunk edge length in blocks.
pub const CHUNK_SIZE: usize = 32;

/// Chunk edge length in blocks, as a signed coordinate.
pub const CHUNK_SIZE_I: i32 = 32;

/// Number of blocks in a chunk.
pub const CHUNK_VOLUME: usize = 32768;

/// A signed integer position or offset in three dimensions.
#[derive(Debug, Clone, Copy, PartialEq, Eq, Hash, Structural)]
pub struct IVec3 {
    pub x: i32,
    pub y: i32,
    pub z: i32,
}

/// An unsigned integer position in three dimensions.
#[derive(Debug, Clone, Copy, PartialEq, Eq, Hash, Structural)]
pub struct UVec3 {
    pub x: u32,
    pub y: u32,
    pub z: u32,
}

/// The position `(x, y, z)`.
pub open spec fn ivec(x: int, y: int, z: int) -> IVec3 {
    IVec3 { x: x as i32, y: y as i32, z: z as i32 }
}

/// True when `(x, y, z)` fits in three `i32` coordinates.
pub open spec fn fits_i32(x: int, y: int, z: int) -> bool {
    &&& i32::MIN <= x <= i32::MAX
    &&& i32::MIN <= y <= i32::MAX
    &&& i32::MIN <= z <= i32::MAX
}

/// The sum of two positions, computed without wrapping.
pub open spec fn add_spec(a: IVec3, b: IVec3) -> IVec3 {
    ivec(a.x + b.x, a.y + b.y, a.z + b.z)
}

/// True when `a + b` fits in `i32` coordinates.
pub open spec fn add_fits(a: IVec3, b: IVec3) -> bool {
    fits_i32(a.x + b.x, a.y + b.y, a.z + b.z)
}

impl IVec3 {
    pub fn new(x: i32, y: i32, z: i32) -> (r: IVec3)
        ensures
            r == (IVec3 { x, y, z }),
    {
        IVec3 { x, y, z }
    }

    /// Component-wise sum; the sum must fit in `i32`.
    pub fn add(self, other: IVec3) -> (r: IVec3)
        requires
            add_fits(self, other),
        ensures
            r == add_spec(self, other),
            r.x == self.x + other.x,
            r.y == self.y + other.y,
            r.z == self.z + other.z,
    {
        IVec3 { x: self.x + other.x, y: self.y + other.y, z: self.z + other.z }
    }
}

/// The six faces of a block, in the order in which faces are emitted.
#[derive(Debug, Clone, Copy, PartialEq, Eq, Hash, Structural)]
pub enum Face {
    PosX,
    NegX,
    PosY,
    NegY,
    PosZ,
    NegZ,
}

/// The unit vector pointing out of face `f`.
pub open spec fn face_normal(f: Face) -> IVec3 {
    match f {
        Face::PosX => ivec(1, 0, 0),
        Face::NegX => ivec(-1, 0, 0),
        Face::PosY => ivec(0, 1, 0),
        Face::NegY => ivec(0, -1, 0),
        Face::PosZ => ivec(0, 0, 1),
        Face::NegZ => ivec(0, 0, -1),
    }
}

/// The face at position `i` of the emission order +X, -X, +Y, -Y, +Z, -Z.
pub open spec fn face_at(i: int) -> Face {
    if i == 0 {
        Face::PosX
    } else if i == 1 {
        Face::NegX
    } else if i == 2 {
        Face::PosY
    } else if i == 3 {
        Face::NegY
    } else if i == 4 {
        Face::PosZ
    } else {
        Face::NegZ
    }
}

impl Face {
    pub fn normal(self) -> (r: IVec3)
        ensures
            r == face_normal(self),
    {
        match self {
            Face::PosX => IVec3 { x: 1, y: 0, z: 0 },
            Face::NegX => IVec3 { x: -1, y: 0, z: 0 },
            Face::PosY => IVec3 { x: 0, y: 1, z: 0 },
            Face::NegY => IVec3 { x: 0, y: -1, z: 0 },
            Face::PosZ => IVec3 { x: 0, y: 0, z: 1 },
            Face::NegZ => IVec3 { x: 0, y: 0, z: -1 },
        }
    }

    /// All six faces, in emission order.
    pub fn all() -> (r: [Face; 6])
        ensures
            forall|i: int| 0 <= i < 6 ==> #[trigger] r@[i] == face_at(i),
    {
        [Face::PosX, Face::NegX, Face::PosY, Face::NegY, Face::PosZ, Face::NegZ]
    }

    /// The face at position `i` of the emission order.
    pub fn from_index(i: usize) -> (r: Face)
        requires
            i < 6,
        ensures
            r == face_at(i as int),
    {
        if i == 0 {
            Face::PosX
        } else if i == 1 {
            Face::NegX
        } else if i == 2 {
            Face::PosY
        } else if i == 3 {
            Face::NegY
        } else if i == 4 {
            Face::PosZ
        } else {
            Face::NegZ
        }
    }
}

/// The chunk holding world block `p` (Euclidean division by the chunk size).
pub open spec fn chunk_of(p: IVec3) -> IVec3 {
    ivec(p.x / 32, p.y / 32, p.z / 32)
}

/// The position of world block `p` inside its chunk (Euclidean remainder).
pub open spec fn local_of(p: IVec3) -> IVec3 {
    ivec((p.x as int) % 32, (p.y as int) % 32, (p.z as int) % 32)
}

/// The world block at local position `l` of chunk `c`, computed without wrapping.
pub open spec fn world_of(c: IVec3, l: IVec3) -> IVec3 {
    ivec(c.x * 32 + l.x, c.y * 32 + l.y, c.z * 32 + l.z)
}

fn div_euclid_32(v: i32) -> (r: i32)
    ensures
        r == v / 32,
        -67108864 <= r < 67108864,
{
    v.checked_div_euclid(32).unwrap()
}

fn rem_euclid_32(v: i32) -> (r: i32)
    ensures
        r == (v as int) % 32,
        0 <= r < 32,
{
    v.checked_rem_euclid(32).unwrap()
}

/// Splits a world block position into its chunk and its local position.
pub fn chunk_coords(world_pos: IVec3) -> (r: (IVec3, IVec3))
    ensures
        r.0 == chunk_of(world_pos),
        r.1 == local_of(world_pos),
        -67108864 <= r.0.x < 67108864,
        -67108864 <= r.0.y < 67108864,
        -67108864 <= r.0.z < 67108864,
        0 <= r.1.x < 32,
        0 <= r.1.y < 32,
        0 <= r.1.z < 32,
{
    let chunk = IVec3 {
        x: div_euclid_32(world_pos.x),
        y: div_euclid_32(world_pos.y),
        z: div_euclid_32(world_pos.z),
    };
    let local = IVec3 {
        x: rem_euclid_32(world_pos.x),
        y: rem_euclid_32(world_pos.y),
        z: rem_euclid_32(world_pos.z),
    };
    (chunk, local)
}

/// Splitting a position and joining it again gives the position back.
pub proof fn lemma_split_join(p: IVec3)
    ensures
        world_of(chunk_of(p), local_of(p)) == p,
        0 <= local_of(p).x < 32,
        0 <= local_of(p).y < 32,
        0 <= local_of(p).z < 32,
{
}

/// Joining a chunk and an in-range local position and splitting again gives both back.
pub proof fn lemma_join_split(c: IVec3, l: IVec3)
    requires
        0 <= l.x < 32,
        0 <= l.y < 32,
        0 <= l.z < 32,
        fits_i32(c.x * 32 + l.x, c.y * 32 + l.y, c.z * 32 + l.z),
    ensures
        chunk_of(world_of(c, l)) == c,
        local_of(world_of(c, l)) == l,
{
    assert((c.x * 32 + l.x) / 32 == c.x) by (nonlinear_arith)
        requires 0 <= l.x < 32;
    assert((c.y * 32 + l.y) / 32 == c.y) by (nonlinear_arith)
        requires 0 <= l.y < 32;
    assert((c.z * 32 + l.z) / 32 == c.z) by (nonlinear_arith)
        requires 0 <= l.z < 32;
    assert((c.x * 32 + l.x) % 32 == l.x) by (nonlinear_arith)
        requires 0 <= l.x < 32;
    assert((c.y * 32 + l.y) % 32 == l.y) by (nonlinear_arith)
        requires 0 <= l.y < 32;
    assert((c.z * 32 + l.z) % 32 == l.z) by (nonlinear_arith)
        requires 0 <= l.z < 32;
}

proof fn lemma_shift_div(a: int, b: int)
    ensures
        (a * 32 + b) / 32 == a + b / 32,
        (a * 32 + b) % 32 == b % 32,
{
    let q = b / 32;
    let r = b % 32;
    vstd::arithmetic::div_mod::lemma_fundamental_div_mod(b, 32);
    assert(a * 32 + b == (a + q) * 32 + r) by (nonlinear_arith)
        requires b == 32 * q + r;
    vstd::arithmetic::div_mod::lemma_fundamental_div_mod_converse(a * 32 + b, 32, a + q, r);
}

/// The world block at any local position `l` of chunk `c`, also outside the
/// chunk, lies in chunk `c` shifted by the Euclidean quotient of `l` by 32,
/// at the Euclidean remainder of `l`, on each axis.
pub proof fn lemma_world_split(c: IVec3, l: IVec3)
    requires
        fits_i32(c.x * 32 + l.x, c.y * 32 + l.y, c.z * 32 + l.z),
    ensures
        chunk_of(world_of(c, l)) == ivec(c.x + l.x as int / 32, c.y + l.y as int / 32, c.z + l.z as int / 32),
        local_of(world_of(c, l)) == ivec(l.x as int % 32, l.y as int % 32, l.z as int % 32),
{
    lemma_shift_div(c.x as int, l.x as int);
    lemma_shift_div(c.y as int, l.y as int);
    lemma_shift_div(c.z as int, l.z as int);
}

/// The coordinate of a chunk, in chunk units.
#[derive(Debug, Clone, Copy, PartialEq, Eq, Hash, Structural)]
pub struct ChunkCoord(pub IVec3);

impl ChunkCoord {
    pub fn new(x: i32, y: i32, z: i32) -> (r: Self)
        ensures
            r.0 == (IVec3 { x, y, z }),
    {
        ChunkCoord(IVec3 { x, y, z })
    }

    /// The position of a world block inside its chunk, each part in `0..32`.
    pub fn world_to_local(world_block: IVec3) -> (r: UVec3)
        ensures
            r.x == (world_block.x as int) % 32,
            r.y == (world_block.y as int) % 32,
            r.z == (world_block.z as int) % 32,
    {
        let (_, local) = chunk_coords(world_block);
        UVec3 { x: local.x as u32, y: local.y as u32, z: local.z as u32 }
    }

    /// The world block at a local position of this chunk. The local parts are
    /// reinterpreted as `i32` and the sums must fit in `i32`.
    pub fn local_to_world(self, local: UVec3) -> (r: IVec3)
        requires
            fits_i32(self.0.x * 32, self.0.y * 32, self.0.z * 32),
            fits_i32(
                self.0.x * 32 + (#[verifier::truncate] (local.x as i32)),
                self.0.y * 32 + (#[verifier::truncate] (local.y as i32)),
                self.0.z * 32 + (#[verifier::truncate] (local.z as i32)),
            ),
        ensures
            r.x == self.0.x * 32 + (#[verifier::truncate] (local.x as i32)),
            r.y == self.0.y * 32 + (#[verifier::truncate] (local.y as i32)),
            r.z == self.0.z * 32 + (#[verifier::truncate] (local.z as i32)),
    {
        IVec3 {
            x: self.0.x * 32 + #[verifier::truncate] (local.x as i32),
            y: self.0.y * 32 + #[verifier::truncate] (local.y as i32),
            z: self.0.z * 32 + #[verifier::truncate] (local.z as i32),
        }
    }

    /// The six chunks that share a face with this one: +X, -X, +Y, -Y, +Z, -Z.
    pub fn neighbors(self) -> (r: [ChunkCoord; 6])
        requires
            i32::MIN < self.0.x < i32::MAX,
            i32::MIN < self.0.y < i32::MAX,
            i32::MIN < self.0.z < i32::MAX,
        ensures
            forall|i: int| 0 <= i < 6 ==> #[trigger] r@[i].0 == add_spec(self.0, face_normal(face_at(i))),
    {
        let c = self.0;
        [
            ChunkCoord(IVec3 { x: c.x + 1, y: c.y, z: c.z }),
            ChunkCoord(IVec3 { x: c.x - 1, y: c.y, z: c.z }),
            ChunkCoord(IVec3 { x: c.x, y: c.y + 1, z: c.z }),
            ChunkCoord(IVec3 { x: c.x, y: c.y - 1, z: c.z }),
            ChunkCoord(IVec3 { x: c.x, y: c.y, z: c.z + 1 }),
            ChunkCoord(IVec3 { x: c.x, y: c.y, z: c.z - 1 }),
        ]
    }
}

} // verus!
