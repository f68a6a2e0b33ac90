use vstd::prelude::*;

verus! {

/// The kind of material a voxel is made of.
#[derive(Clone, Copy, Debug, PartialEq, Eq, Hash, Structural)]
pub enum BlockType {
    Invalid,
    Air,
    Grass,
    Stone,
    Snow,
}

/// Whether a block type is solid: everything but air and the invalid marker.
pub open spec fn block_is_solid(b: BlockType) -> bool {
    b != BlockType::Air && b != BlockType::Invalid
}

/// The number that encodes a block type (the invalid marker is `u32::MAX`).
pub open spec fn block_code(b: BlockType) -> u32 {
    match b {
        BlockType::Invalid => u32::MAX,
        BlockType::Air => 0,
        BlockType::Grass => 1,
        BlockType::Stone => 2,
        BlockType::Snow => 3,
    }
}

/// The block type that a number encodes, if any.
pub open spec fn block_of_code(v: u32) -> Option<BlockType> {
    if v == 0 {
        Some(BlockType::Air)
    } else if v == 1 {
        Some(BlockType::Grass)
    } else if v == 2 {
        Some(BlockType::Stone)
    } else if v == 3 {
        Some(BlockType::Snow)
    } else if v == u32::MAX {
        Some(BlockType::Invalid)
    } else {
        None
    }
}

impl Default for BlockType {
    fn default() -> (b: Self)
        ensures
            b == BlockType::Invalid,
    {
        BlockType::Invalid
    }
}

impl BlockType {
    /// Whether this block fills its voxel (it is neither air nor invalid).
    pub fn is_solid(&self) -> (r: bool)
        ensures
            r == block_is_solid(*self),
    {
        match self {
            BlockType::Air | BlockType::Invalid => false,
            _ => true,
        }
    }

    /// The number that encodes this block type.
    pub fn code(self) -> (r: u32)
        ensures
            r == block_code(self),
    {
        match self {
            BlockType::Invalid => u32::MAX,
            BlockType::Air => 0,
            BlockType::Grass => 1,
            BlockType::Stone => 2,
            BlockType::Snow => 3,
        }
    }

    /// The block type encoded by `value`, or `Err(())` for a number that encodes none.
    pub fn from_code(value: u32) -> (r: Result<BlockType, ()>)
        ensures
            r is Ok <==> block_of_code(value) is Some,
            r matches Ok(b) ==> Some(b) == block_of_code(value),
            r == match block_of_code(value) {
                Some(b) => Ok::<BlockType, ()>(b),
                None => Err(()),
            },
    {
        match value {
            0 => Ok(BlockType::Air),
            1 => Ok(BlockType::Grass),
            2 => Ok(BlockType::Stone),
            3 => Ok(BlockType::Snow),
            0xFFFF_FFFF => Ok(BlockType::Invalid),
            _ => Err(()),
        }
    }
}

impl From<BlockType> for u32 {
    fn from(value: BlockType) -> (r: u32) {
        value.code()
    }
}

impl vstd::std_specs::convert::FromSpecImpl<BlockType> for u32 {
    open spec fn obeys_from_spec() -> bool {
        true
    }

    open spec fn from_spec(v: BlockType) -> u32 {
        block_code(v)
    }
}

impl TryFrom<u32> for BlockType {
    type Error = ();

    fn try_from(value: u32) -> (r: Result<BlockType, ()>) {
        BlockType::from_code(value)
    }
}

impl vstd::std_specs::convert::TryFromSpecImpl<u32> for BlockType {
    open spec fn obeys_try_from_spec() -> bool {
        true
    }

    open spec fn try_from_spec(value: u32) -> Result<BlockType, ()> {
        match block_of_code(value) {
            Some(b) => Ok(b),
            None => Err(()),
        }
    }
}

/// Encoding a block type and decoding the number gives the block type back, and a number
/// that decodes to a block type is that block type's code.
pub proof fn lemma_block_code_roundtrip(b: BlockType, v: u32)
    ensures
        block_of_code(block_code(b)) == Some(b),
        block_of_code(v) matches Some(c) ==> block_code(c) == v,
{
}

/// A voxel that carries nothing but its block type.
pub trait Voxel {
    fn get_type(&self) -> BlockType;

    fn set_type(&mut self, block_type: BlockType);
}

/// The plain voxel of a chunk: a block type.
#[derive(Clone, Copy, Debug)]
pub struct BasicVoxel {
    pub block_type: BlockType,
}

impl BasicVoxel {
    pub fn new(block_type: BlockType) -> (v: Self)
        ensures
            v.block_type == block_type,
    {
        Self { block_type }
    }
}

impl Voxel for BasicVoxel {
    fn get_type(&self) -> (b: BlockType)
        ensures
            b == self.block_type,
    {
        self.block_type
    }

    fn set_type(&mut self, block_type: BlockType)
        ensures
            final(self).block_type == block_type,
    {
        self.block_type = block_type;
    }
}

} // verus!
