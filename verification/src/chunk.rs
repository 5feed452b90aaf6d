use vstd::prelude::*;

use crate::block::Block;

verus! {

/// Width of a chunk along x and z.
pub const CHUNK_W: i32 = 16;

/// Height of a chunk along y.
pub const CHUNK_H: i32 = 256;

/// Number of cells in a chunk: `CHUNK_W * CHUNK_H * CHUNK_W`.
pub const CHUNK_VOL: usize = 65536;

/// The coordinate lies below the upper bound on every axis; only these
/// coordinates reach the storage.
pub open spec fn below_upper(x: int, y: int, z: int) -> bool {
    x < CHUNK_W && y < CHUNK_H && z < CHUNK_W
}

/// The flat storage index of a coordinate (x-major, then y, then z).
pub open spec fn flat_index(x: int, y: int, z: int) -> int {
    x * CHUNK_H * CHUNK_W + y * CHUNK_W + z
}

/// Access at this coordinate stays inside the storage: either it is cut off
/// by the upper bounds, or its flat index is not negative.
pub open spec fn access_ok(x: int, y: int, z: int) -> bool {
    below_upper(x, y, z) ==> flat_index(x, y, z) >= 0
}

/// The block read at a coordinate from a chunk's cells.
pub open spec fn cell_of(cells: Seq<Block>, x: int, y: int, z: int) -> Block {
    if below_upper(x, y, z) {
        cells[flat_index(x, y, z)]
    } else {
        Block::Air
    }
}

/// A chunk's cells after writing `b` at a coordinate.
pub open spec fn cells_after_set(cells: Seq<Block>, x: int, y: int, z: int, b: Block) -> Seq<
    Block,
> {
    if below_upper(x, y, z) {
        cells.update(flat_index(x, y, z), b)
    } else {
        cells
    }
}

/// The coordinate lies inside the chunk on every axis.
pub open spec fn in_box(x: int, y: int, z: int) -> bool {
    0 <= x < CHUNK_W && 0 <= y < CHUNK_H && 0 <= z < CHUNK_W
}

/// A column of blocks, 16 x 256 x 16, stored one byte per cell.
pub struct Chunk {
    data: Vec<u8>,
    cx: i32,
    cz: i32,
}

impl Chunk {
    /// The storage holds exactly one byte per cell.
    pub closed spec fn wf(self) -> bool {
        self.data@.len() == CHUNK_VOL
    }

    /// The chunk's cells as blocks, in flat-index order.
    pub closed spec fn cells(self) -> Seq<Block> {
        Seq::new(CHUNK_VOL as nat, |i: int| Block::decode(self.data@[i]))
    }

    /// Every chunk has one cell per storage slot.
    pub proof fn lemma_cells_len(self)
        ensures
            self.cells().len() == CHUNK_VOL,
    {
    }

    /// The chunk's position in the grid of chunks.
    pub closed spec fn origin(self) -> (i32, i32) {
        (self.cx, self.cz)
    }

    /// The block that `get` reports at a coordinate.
    pub open spec fn block_at(self, x: int, y: int, z: int) -> Block {
        cell_of(self.cells(), x, y, z)
    }

    /// The cells after `set(x, y, z, b)`.
    pub open spec fn cells_after_set(self, x: int, y: int, z: int, b: Block) -> Seq<Block> {
        cells_after_set(self.cells(), x, y, z, b)
    }

    /// A chunk at grid position (`cx`, `cz`) filled with air.
    pub fn new(cx: i32, cz: i32) -> (c: Self)
        ensures
            c.wf(),
            c.origin() == (cx, cz),
            c.cells() == Seq::new(CHUNK_VOL as nat, |i: int| Block::Air),
    {
        let data: Vec<u8> = vec![0u8; CHUNK_VOL];
        let c = Chunk { data, cx, cz };
        assert(c.cells() =~= Seq::new(CHUNK_VOL as nat, |i: int| Block::Air));
        c
    }

    fn idx(x: i32, y: i32, z: i32) -> (r: usize)
        requires
            below_upper(x as int, y as int, z as int),
            flat_index(x as int, y as int, z as int) >= 0,
        ensures
            r as int == flat_index(x as int, y as int, z as int),
            r < CHUNK_VOL,
    {
        (x * CHUNK_H * CHUNK_W + y * CHUNK_W + z) as usize
    }

    /// Writes `b` at (x, y, z); a coordinate at or above an upper bound is
    /// ignored.
    pub fn set(&mut self, x: i32, y: i32, z: i32, b: Block)
        requires
            old(self).wf(),
            access_ok(x as int, y as int, z as int),
        ensures
            final(self).wf(),
            final(self).origin() == old(self).origin(),
            final(self).cells() == old(self).cells_after_set(x as int, y as int, z as int, b),
    {
        if x < CHUNK_W && y < CHUNK_H && z < CHUNK_W {
            let i = Self::idx(x, y, z);
            self.data.set(i, b.to_u8());
            proof {
                Block::lemma_decode_code(b);
            }
            assert(self.cells() =~= old(self).cells().update(
                flat_index(x as int, y as int, z as int),
                b,
            ));
        }
    }

    /// Reads the block at (x, y, z); a coordinate at or above an upper
    /// bound reads as air.
    pub fn get(&self, x: i32, y: i32, z: i32) -> (b: Block)
        requires
            self.wf(),
            access_ok(x as int, y as int, z as int),
        ensures
            b == self.block_at(x as int, y as int, z as int),
    {
        if x < CHUNK_W && y < CHUNK_H && z < CHUNK_W {
            Block::from_u8(self.data[Self::idx(x, y, z)])
        } else {
            Block::Air
        }
    }
}

/// Reading back a coordinate that was just written gives the written block,
/// or air where the coordinate is at or above an upper bound.
pub proof fn lemma_get_after_set(cells: Seq<Block>, x: int, y: int, z: int, b: Block)
    requires
        cells.len() == CHUNK_VOL,
        access_ok(x, y, z),
    ensures
        cell_of(cells_after_set(cells, x, y, z, b), x, y, z) == (if below_upper(x, y, z) {
            b
        } else {
            Block::Air
        }),
{
}

/// A write leaves every coordinate that does not share its cell unchanged.
pub proof fn lemma_set_keeps_other_cells(
    cells: Seq<Block>,
    x: int,
    y: int,
    z: int,
    b: Block,
    qx: int,
    qy: int,
    qz: int,
)
    requires
        cells.len() == CHUNK_VOL,
        access_ok(x, y, z),
        access_ok(qx, qy, qz),
        !(below_upper(x, y, z) && below_upper(qx, qy, qz) && flat_index(x, y, z) == flat_index(
            qx,
            qy,
            qz,
        )),
    ensures
        cell_of(cells_after_set(cells, x, y, z, b), qx, qy, qz) == cell_of(cells, qx, qy, qz),
{
}

/// Two writes to the same coordinate: the second one wins.
pub proof fn lemma_last_set_wins(cells: Seq<Block>, x: int, y: int, z: int, a: Block, b: Block)
    requires
        cells.len() == CHUNK_VOL,
        access_ok(x, y, z),
    ensures
        cells_after_set(cells_after_set(cells, x, y, z, a), x, y, z, b) == cells_after_set(
            cells,
            x,
            y,
            z,
            b,
        ),
{
    assert(cells_after_set(cells_after_set(cells, x, y, z, a), x, y, z, b) =~= cells_after_set(
        cells,
        x,
        y,
        z,
        b,
    ));
}

/// Distinct coordinates inside the chunk never share a cell, and every
/// cell inside the chunk has its flat index in storage range.
pub proof fn lemma_box_cells_distinct(x: int, y: int, z: int, qx: int, qy: int, qz: int)
    requires
        in_box(x, y, z),
        in_box(qx, qy, qz),
        (x, y, z) != (qx, qy, qz),
    ensures
        flat_index(x, y, z) != flat_index(qx, qy, qz),
        0 <= flat_index(x, y, z) < CHUNK_VOL,
{
}

/// Every cell of the storage is the cell of exactly one coordinate inside
/// the chunk.
pub proof fn lemma_box_covers_cells(i: int)
    requires
        0 <= i < CHUNK_VOL,
    ensures
        in_box(i / 4096, (i / 16) % 256, i % 16),
        flat_index(i / 4096, (i / 16) % 256, i % 16) == i,
{
}

} // verus!
