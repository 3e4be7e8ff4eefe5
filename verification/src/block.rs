//! Blocks: the smallest addressable unit of the voxel grid.

use vstd::prelude::*;

verus! {

/// The identifier reserved for air, the one empty and transparent block.
pub const AIR_ID: u16 = 0;

/// The block kinds that terrain is made of.
#[derive(Debug, Clone, Copy, PartialEq, Eq, Structural)]
pub enum BlockType {
    Air,
    Stone,
    Dirt,
    Grass,
}

impl BlockType {
    /// The numeric identifier of a block kind.
    pub open spec fn spec_id(self) -> u16 {
        match self {
            BlockType::Air => 0u16,
            BlockType::Stone => 1u16,
            BlockType::Dirt => 2u16,
            BlockType::Grass => 3u16,
        }
    }

    /// The numeric identifier of a block kind.
    pub fn id(self) -> (r: u16)
        ensures
            r == self.spec_id(),
            (r == AIR_ID) == (self == BlockType::Air),
    {
        match self {
            BlockType::Air => 0u16,
            BlockType::Stone => 1u16,
            BlockType::Dirt => 2u16,
            BlockType::Grass => 3u16,
        }
    }
}

/// A block, identified by a number. Blocks are plain values, copied freely.
#[derive(Debug, Clone, Copy, PartialEq, Eq, Structural)]
pub struct Block {
    pub id: u16,
}

impl Block {
    /// Whether this block is air.
    pub open spec fn is_air(self) -> bool {
        self.id == AIR_ID
    }

    /// The block of the given kind.
    pub fn new(block_type: BlockType) -> (r: Self)
        ensures
            r.id == block_type.spec_id(),
            r.is_air() == (block_type == BlockType::Air),
    {
        Self::from_id(block_type.id())
    }

    /// The block with the given identifier.
    pub fn from_id(block_id: u16) -> (r: Self)
        ensures
            r.id == block_id,
    {
        Self { id: block_id }
    }

    /// The air block.
    pub fn air() -> (r: Self)
        ensures
            r.id == AIR_ID,
            r.is_air(),
    {
        Self::new(BlockType::Air)
    }

    /// Whether light passes through this block, which only air allows.
    pub fn is_transpose(&self) -> (r: bool)
        ensures
            r == self.is_air(),
    {
        self.id == AIR_ID
    }
}

} // verus!
