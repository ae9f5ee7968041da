//! Block kinds and the rules attached to each kind.
use vstd::prelude::*;

verus! {

/// The kind of a voxel. Each kind is stored in a chunk as one byte (see `code`).
#[derive(Debug, Clone, Copy, PartialEq, Eq, Hash, Structural)]
pub enum BlockType {
    Air,
    Stone,
    Dirt,
    Grass,
    Sand,
    Wood,
    Leaves,
    Cobblestone,
    Planks,
    Glass,
    Bedrock,
}

/// The byte that stands for `b` in a chunk.
pub open spec fn block_code(b: BlockType) -> u8 {
    match b {
        BlockType::Air => 0,
        BlockType::Stone => 1,
        BlockType::Dirt => 2,
        BlockType::Grass => 3,
        BlockType::Sand => 4,
        BlockType::Wood => 5,
        BlockType::Leaves => 6,
        BlockType::Cobblestone => 7,
        BlockType::Planks => 8,
        BlockType::Glass => 9,
        BlockType::Bedrock => 10,
    }
}

/// The kind a byte stands for, if any.
pub open spec fn block_of_code(v: u8) -> Option<BlockType> {
    if v == 0 {
        Some(BlockType::Air)
    } else if v == 1 {
        Some(BlockType::Stone)
    } else if v == 2 {
        Some(BlockType::Dirt)
    } else if v == 3 {
        Some(BlockType::Grass)
    } else if v == 4 {
        Some(BlockType::Sand)
    } else if v == 5 {
        Some(BlockType::Wood)
    } else if v == 6 {
        Some(BlockType::Leaves)
    } else if v == 7 {
        Some(BlockType::Cobblestone)
    } else if v == 8 {
        Some(BlockType::Planks)
    } else if v == 9 {
        Some(BlockType::Glass)
    } else if v == 10 {
        Some(BlockType::Bedrock)
    } else {
        None
    }
}

/// The kind a stored byte is read as: unknown bytes read as air.
pub open spec fn decode_block(v: u8) -> BlockType {
    match block_of_code(v) {
        Some(b) => b,
        None => BlockType::Air,
    }
}

/// Light passes through air, glass and leaves.
pub open spec fn transparent(b: BlockType) -> bool {
    b is Air || b is Glass || b is Leaves
}

/// The player's body collides with every kind but air, leaves and glass.
pub open spec fn collidable(b: BlockType) -> bool {
    !(b is Air || b is Leaves || b is Glass)
}

/// The name shown for each kind.
pub open spec fn display_name_of(b: BlockType) -> Seq<char> {
    match b {
        BlockType::Air => "Air"@,
        BlockType::Stone => "Stone"@,
        BlockType::Dirt => "Dirt"@,
        BlockType::Grass => "Grass"@,
        BlockType::Sand => "Sand"@,
        BlockType::Wood => "Wood"@,
        BlockType::Leaves => "Leaves"@,
        BlockType::Cobblestone => "Cobblestone"@,
        BlockType::Planks => "Planks"@,
        BlockType::Glass => "Glass"@,
        BlockType::Bedrock => "Bedrock"@,
    }
}

impl BlockType {
    pub fn is_air(self) -> (r: bool)
        ensures
            r == (self is Air),
    {
        matches!(self, BlockType::Air)
    }

    pub fn is_transparent(self) -> (r: bool)
        ensures
            r == transparent(self),
    {
        matches!(self, BlockType::Air | BlockType::Glass | BlockType::Leaves)
    }

    pub fn is_solid(self) -> (r: bool)
        ensures
            r == !(self is Air),
    {
        !matches!(self, BlockType::Air)
    }

    pub fn display_name(self) -> (r: &'static str)
        ensures
            r@ == display_name_of(self),
    {
        match self {
            BlockType::Air => "Air",
            BlockType::Stone => "Stone",
            BlockType::Dirt => "Dirt",
            BlockType::Grass => "Grass",
            BlockType::Sand => "Sand",
            BlockType::Wood => "Wood",
            BlockType::Leaves => "Leaves",
            BlockType::Cobblestone => "Cobblestone",
            BlockType::Planks => "Planks",
            BlockType::Glass => "Glass",
            BlockType::Bedrock => "Bedrock",
        }
    }

    /// The byte that stands for this kind in a chunk.
    pub fn to_u8(self) -> (r: u8)
        ensures
            r == block_code(self),
    {
        match self {
            BlockType::Air => 0,
            BlockType::Stone => 1,
            BlockType::Dirt => 2,
            BlockType::Grass => 3,
            BlockType::Sand => 4,
            BlockType::Wood => 5,
            BlockType::Leaves => 6,
            BlockType::Cobblestone => 7,
            BlockType::Planks => 8,
            BlockType::Glass => 9,
            BlockType::Bedrock => 10,
        }
    }
}

impl TryFrom<u8> for BlockType {
    type Error = ();

    fn try_from(v: u8) -> (r: Result<BlockType, ()>) {
        if v == 0 {
            Ok(BlockType::Air)
        } else if v == 1 {
            Ok(BlockType::Stone)
        } else if v == 2 {
            Ok(BlockType::Dirt)
        } else if v == 3 {
            Ok(BlockType::Grass)
        } else if v == 4 {
            Ok(BlockType::Sand)
        } else if v == 5 {
            Ok(BlockType::Wood)
        } else if v == 6 {
            Ok(BlockType::Leaves)
        } else if v == 7 {
            Ok(BlockType::Cobblestone)
        } else if v == 8 {
            Ok(BlockType::Planks)
        } else if v == 9 {
            Ok(BlockType::Glass)
        } else if v == 10 {
            Ok(BlockType::Bedrock)
        } else {
            Err(())
        }
    }
}

impl vstd::std_specs::convert::TryFromSpecImpl<u8> for BlockType {
    open spec fn obeys_try_from_spec() -> bool {
        true
    }

    open spec fn try_from_spec(v: u8) -> Result<BlockType, ()> {
        match block_of_code(v) {
            Some(b) => Ok(b),
            None => Err(()),
        }
    }
}

/// Reads a stored byte: unknown bytes read as air.
pub fn decode(v: u8) -> (r: BlockType)
    ensures
        r == decode_block(v),
{
    match BlockType::try_from(v) {
        Ok(b) => b,
        Err(_) => BlockType::Air,
    }
}

/// Each kind's byte reads back as that kind.
pub proof fn lemma_code_roundtrip(b: BlockType)
    ensures
        block_of_code(block_code(b)) == Some(b),
        decode_block(block_code(b)) == b,
{
}

/// Every byte that stands for a kind is that kind's byte.
pub proof fn lemma_code_injective(v: u8)
    ensures
        block_of_code(v) matches Some(b) ==> block_code(b) == v,
{
}

/// The kinds that can be placed from the inventory (all but air and bedrock).
pub fn placeable_blocks() -> (r: Vec<BlockType>)
    ensures
        r@ == seq![
            BlockType::Stone,
            BlockType::Dirt,
            BlockType::Grass,
            BlockType::Sand,
            BlockType::Wood,
            BlockType::Leaves,
            BlockType::Cobblestone,
            BlockType::Planks,
            BlockType::Glass,
        ],
{
    vec![
        BlockType::Stone,
        BlockType::Dirt,
        BlockType::Grass,
        BlockType::Sand,
        BlockType::Wood,
        BlockType::Leaves,
        BlockType::Cobblestone,
        BlockType::Planks,
        BlockType::Glass,
    ]
}

/// The registry of block rules shared by the world.
pub struct BlockRegistry;

impl BlockRegistry {
    pub fn new() -> (r: Self) {
        BlockRegistry
    }

    pub fn is_collidable(&self, block: BlockType) -> (r: bool)
        ensures
            r == collidable(block),
    {
        !matches!(block, BlockType::Air | BlockType::Leaves | BlockType::Glass)
    }
}

impl Default for BlockRegistry {
    fn default() -> (r: Self) {
        BlockRegistry::new()
    }
}

} // verus!
