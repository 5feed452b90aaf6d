use vstd::prelude::*;

verus! {

/// The kinds of block a chunk cell can hold.
#[derive(Copy, Clone, Debug, PartialEq, Eq, Structural)]
pub enum Block {
    Air,
    Stone,
    Dirt,
    Grass,
    Sand,
    Water,
    Bedrock,
}

impl Block {
    /// The byte that stands for this block in chunk storage.
    pub open spec fn code(self) -> u8 {
        match self {
            Block::Air => 0,
            Block::Stone => 1,
            Block::Dirt => 2,
            Block::Grass => 3,
            Block::Sand => 4,
            Block::Water => 5,
            Block::Bedrock => 6,
        }
    }

    /// The block that a stored byte decodes to; unknown bytes decode to air.
    pub open spec fn decode(v: u8) -> Block {
        if v == 1 {
            Block::Stone
        } else if v == 2 {
            Block::Dirt
        } else if v == 3 {
            Block::Grass
        } else if v == 4 {
            Block::Sand
        } else if v == 5 {
            Block::Water
        } else if v == 6 {
            Block::Bedrock
        } else {
            Block::Air
        }
    }

    pub fn to_u8(self) -> (r: u8)
        ensures
            r == self.code(),
    {
        match self {
            Block::Air => 0,
            Block::Stone => 1,
            Block::Dirt => 2,
            Block::Grass => 3,
            Block::Sand => 4,
            Block::Water => 5,
            Block::Bedrock => 6,
        }
    }

    pub fn from_u8(v: u8) -> (b: Block)
        ensures
            b == Block::decode(v),
    {
        match v {
            1 => Block::Stone,
            2 => Block::Dirt,
            3 => Block::Grass,
            4 => Block::Sand,
            5 => Block::Water,
            6 => Block::Bedrock,
            _ => Block::Air,
        }
    }

    /// Decoding the byte of a block gives the block back.
    pub proof fn lemma_decode_code(b: Block)
        ensures
            Block::decode(b.code()) == b,
    {
    }

    /// Every byte outside the codes in use decodes to air.
    pub proof fn lemma_decode_unknown(v: u8)
        requires
            v > 6,
        ensures
            Block::decode(v) == Block::Air,
    {
    }
}

} // verus!
