use vstd::prelude::*;

verus! {

/// The kinds of blocks that make up the world.
#[derive(Debug, Clone, Copy, PartialEq, Eq, Hash, Structural)]
pub enum BlockType {
    Air,
    Dirt,
    Stone,
    Grass,
    Wood,
    Leaves,
    Sand,
    Water,
    Bedrock,
    Lava,
}

/// Display name of a block type.
pub open spec fn block_name_spec(b: BlockType) -> Seq<char> {
    match b {
        BlockType::Air => "Air"@,
        BlockType::Dirt => "Dirt"@,
        BlockType::Stone => "Stone"@,
        BlockType::Grass => "Grass"@,
        BlockType::Wood => "Wood"@,
        BlockType::Leaves => "Leaves"@,
        BlockType::Sand => "Sand"@,
        BlockType::Water => "Water"@,
        BlockType::Bedrock => "Bedrock"@,
        BlockType::Lava => "Lava"@,
    }
}

impl BlockType {
    /// The display name of the block type.
    pub fn name(&self) -> (r: &'static str)
        ensures
            r@ == block_name_spec(*self),
    {
        match self {
            BlockType::Air => "Air",
            BlockType::Dirt => "Dirt",
            BlockType::Stone => "Stone",
            BlockType::Grass => "Grass",
            BlockType::Wood => "Wood",
            BlockType::Leaves => "Leaves",
            BlockType::Sand => "Sand",
            BlockType::Water => "Water",
            BlockType::Bedrock => "Bedrock",
            BlockType::Lava => "Lava",
        }
    }

    /// A block is solid unless it is air or water.
    pub open spec fn is_solid_spec(self) -> bool {
        !(self is Air || self is Water)
    }

    /// A block is transparent when it is air, water or leaves.
    pub open spec fn is_transparent_spec(self) -> bool {
        self is Air || self is Water || self is Leaves
    }

    /// Whether the block is solid (not air or water).
    pub fn is_solid(&self) -> (r: bool)
        ensures
            r == self.is_solid_spec(),
    {
        match self {
            BlockType::Air | BlockType::Water => false,
            _ => true,
        }
    }

    /// Whether the block lets light through.
    pub fn is_transparent(&self) -> (r: bool)
        ensures
            r == self.is_transparent_spec(),
    {
        match self {
            BlockType::Air | BlockType::Water | BlockType::Leaves => true,
            _ => false,
        }
    }
}

/// An integer position on the block grid.
#[derive(Debug, Clone, Copy, PartialEq, Eq, Hash, Structural)]
pub struct IVec3 {
    pub x: i32,
    pub y: i32,
    pub z: i32,
}

impl IVec3 {
    pub fn new(x: i32, y: i32, z: i32) -> (r: IVec3)
        ensures
            r.x == x,
            r.y == y,
            r.z == z,
    {
        IVec3 { x, y, z }
    }
}

/// A block of the world with its grid position.
#[derive(Debug, Clone, Copy, PartialEq, Eq)]
pub struct Block {
    pub block_type: BlockType,
    pub position: IVec3,
}

impl Block {
    pub fn new(block_type: BlockType, position: IVec3) -> (r: Block)
        ensures
            r.block_type == block_type,
            r.position == position,
    {
        Block { block_type, position }
    }
}

} // verus!
