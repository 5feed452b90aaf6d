use vstd::prelude::*;

use crate::block::Block;
use crate::chunk::{Chunk, CHUNK_H, CHUNK_W, in_box};
use crate::world::{ChunkMap, chunk_map_insert, chunk_map_new};

verus! {

/// Water fills every air cell below this height.
pub const SEA_LEVEL: i32 = 64;

/// The two blocks that cover a column's stone.
#[derive(Copy, Clone, Debug, PartialEq, Eq, Structural)]
pub struct Biome {
    pub surface: Block,
    pub subsurface: Block,
}

/// What the terrain is made of at one (x, z) position of a chunk: the
/// height of its top block plus one, and its biome.
#[derive(Copy, Clone, Debug, PartialEq, Eq, Structural)]
pub struct Column {
    pub top: i32,
    pub biome: Biome,
}

/// The block at height `y` of a column whose surface block sits at `top - 1`.
pub open spec fn column_block_spec(y: int, top: int, biome: Biome) -> Block {
    if y == 0 {
        Block::Bedrock
    } else if y < top - 4 {
        Block::Stone
    } else if y < top - 1 {
        biome.subsurface
    } else if y == top - 1 {
        biome.surface
    } else if y < SEA_LEVEL {
        Block::Water
    } else {
        Block::Air
    }
}

/// Columns for one chunk: one per (x, z), x-major, each with a top that
/// leaves room below it.
pub open spec fn columns_ok(columns: Seq<Column>) -> bool {
    &&& columns.len() == CHUNK_W * CHUNK_W
    &&& forall|k: int| 0 <= k < columns.len() ==> #[trigger] columns[k].top >= i32::MIN + 4
}

/// The block that generation puts at (x, y, z) of a chunk built from `columns`.
pub open spec fn generated_block(columns: Seq<Column>, x: int, y: int, z: int) -> Block {
    let col = columns[x * CHUNK_W + z];
    column_block_spec(y, col.top as int, col.biome)
}

/// The block at height `y` of a column.
pub fn column_block(y: i32, top: i32, biome: &Biome) -> (b: Block)
    requires
        y == 0 || top >= i32::MIN + 4,
    ensures
        b == column_block_spec(y as int, top as int, *biome),
{
    if y == 0 {
        Block::Bedrock
    } else if y < top - 4 {
        Block::Stone
    } else if y < top - 1 {
        biome.subsurface
    } else if y == top - 1 {
        biome.surface
    } else if y < SEA_LEVEL {
        Block::Water
    } else {
        Block::Air
    }
}

/// Fills every cell of `chunk` from its columns.
pub fn generate(chunk: &mut Chunk, columns: &Vec<Column>)
    requires
        old(chunk).wf(),
        columns_ok(columns@),
    ensures
        final(chunk).wf(),
        final(chunk).origin() == old(chunk).origin(),
        forall|x: int, y: int, z: int|
            in_box(x, y, z) ==> #[trigger] final(chunk).block_at(x, y, z) == generated_block(
                columns@,
                x,
                y,
                z,
            ),
{
    let ghost start = *chunk;
    let mut x: i32 = 0;
    while x < CHUNK_W
        invariant
            0 <= x <= CHUNK_W,
            columns_ok(columns@),
            chunk.wf(),
            chunk.origin() == start.origin(),
            forall|px: int, py: int, pz: int|
                in_box(px, py, pz) ==> #[trigger] chunk.block_at(px, py, pz) == (if px < x {
                    generated_block(columns@, px, py, pz)
                } else {
                    start.block_at(px, py, pz)
                }),
        decreases CHUNK_W - x,
    {
        let mut z: i32 = 0;
        while z < CHUNK_W
            invariant
                0 <= x < CHUNK_W,
                0 <= z <= CHUNK_W,
                columns_ok(columns@),
                chunk.wf(),
                chunk.origin() == start.origin(),
                forall|px: int, py: int, pz: int|
                    in_box(px, py, pz) ==> #[trigger] chunk.block_at(px, py, pz) == (if px < x
                        || (px == x && pz < z) {
                        generated_block(columns@, px, py, pz)
                    } else {
                        start.block_at(px, py, pz)
                    }),
            decreases CHUNK_W - z,
        {
            let col = &columns[(x * CHUNK_W + z) as usize];
            let mut y: i32 = 0;
            while y < CHUNK_H
                invariant
                    0 <= x < CHUNK_W,
                    0 <= z < CHUNK_W,
                    0 <= y <= CHUNK_H,
                    columns_ok(columns@),
                    *col == columns@[x * CHUNK_W + z],
                    chunk.wf(),
                    chunk.origin() == start.origin(),
                    forall|px: int, py: int, pz: int|
                        in_box(px, py, pz) ==> #[trigger] chunk.block_at(px, py, pz) == (if px < x
                            || (px == x && pz < z) || (px == x && pz == z && py < y) {
                            generated_block(columns@, px, py, pz)
                        } else {
                            start.block_at(px, py, pz)
                        }),
                decreases CHUNK_H - y,
            {
                let block = column_block(y, col.top, &col.biome);
                let ghost before = *chunk;
                proof {
                    before.lemma_cells_len();
                }
                chunk.set(x, y, z, block);
                assert forall|px: int, py: int, pz: int| in_box(px, py, pz) implies #[trigger]
                    chunk.block_at(px, py, pz) == (if px < x || (px == x && pz < z) || (px == x
                        && pz == z && py < y + 1) {
                        generated_block(columns@, px, py, pz)
                    } else {
                        start.block_at(px, py, pz)
                    }) by {
                    let prior = before.block_at(px, py, pz);
                    if (px, py, pz) != (x as int, y as int, z as int) {
                        crate::chunk::lemma_box_cells_distinct(
                            x as int,
                            y as int,
                            z as int,
                            px,
                            py,
                            pz,
                        );
                        crate::chunk::lemma_box_cells_distinct(
                            px,
                            py,
                            pz,
                            x as int,
                            y as int,
                            z as int,
                        );
                        crate::chunk::lemma_set_keeps_other_cells(
                            before.cells(),
                            x as int,
                            y as int,
                            z as int,
                            block,
                            px,
                            py,
                            pz,
                        );
                        assert(chunk.block_at(px, py, pz) == prior);
                    } else {
                        crate::chunk::lemma_get_after_set(
                            before.cells(),
                            x as int,
                            y as int,
                            z as int,
                            block,
                        );
                        assert(chunk.block_at(px, py, pz) == block);
                    }
                }
                y = y + 1;
            }
            z = z + 1;
        }
        x = x + 1;
    }
}

/// The layers of a generated column: bedrock at the bottom, stone up to
/// four below the top, the biome's blocks above it, water up to the sea
/// level where the column is lower, and air above both.
pub proof fn lemma_column_layers(y: int, top: int, biome: Biome)
    ensures
        y == 0 ==> column_block_spec(y, top, biome) == Block::Bedrock,
        0 < y < top - 4 ==> column_block_spec(y, top, biome) == Block::Stone,
        0 < y && top - 4 <= y < top - 1 ==> column_block_spec(y, top, biome) == biome.subsurface,
        0 < y && y == top - 1 ==> column_block_spec(y, top, biome) == biome.surface,
        0 < y && top <= y < SEA_LEVEL ==> column_block_spec(y, top, biome) == Block::Water,
        0 < y && top <= y && SEA_LEVEL <= y ==> column_block_spec(y, top, biome) == Block::Air,
{
}

/// Columns for every chunk of a `size` x `size` grid, one list per chunk,
/// indexed `cz * size + cx`; a grid of size 0 or less has no chunks and
/// reads no columns.
pub open spec fn world_columns_ok(size: int, columns: Seq<Vec<Column>>) -> bool {
    size > 0 ==> {
        &&& columns.len() == size * size
        &&& forall|k: int| 0 <= k < columns.len() ==> columns_ok(#[trigger] columns[k]@)
    }
}

/// Builds the chunks of a `size` x `size` grid, each filled from its columns.
pub fn generate_world(size: i32, columns: &Vec<Vec<Column>>) -> (m: ChunkMap)
    requires
        world_columns_ok(size as int, columns@),
    ensures
        forall|key: (i32, i32)|
            #[trigger] m@.contains_key(key) <==> (0 <= key.0 < size && 0 <= key.1 < size),
        forall|key: (i32, i32)| #[trigger]
            m@.contains_key(key) ==> {
                let c = m@[key];
                &&& c.wf()
                &&& c.origin() == key
                &&& forall|x: int, y: int, z: int|
                    in_box(x, y, z) ==> #[trigger] c.block_at(x, y, z) == generated_block(
                        columns@[key.1 * size + key.0]@,
                        x,
                        y,
                        z,
                    )
            },
{
    let mut m = chunk_map_new();
    if size <= 0 {
        return m;
    }
    let n: usize = size as usize;
    let total: usize = columns.len();
    let mut cz: i32 = 0;
    while cz < size
        invariant
            0 <= cz <= size,
            n == size,
            total == columns@.len(),
            world_columns_ok(size as int, columns@),
            forall|key: (i32, i32)|
                #[trigger] m@.contains_key(key) <==> (0 <= key.0 < size && 0 <= key.1 < cz),
            forall|key: (i32, i32)| #[trigger]
                m@.contains_key(key) ==> {
                    let c = m@[key];
                    &&& c.wf()
                    &&& c.origin() == key
                    &&& forall|x: int, y: int, z: int|
                        in_box(x, y, z) ==> #[trigger] c.block_at(x, y, z) == generated_block(
                            columns@[key.1 * size + key.0]@,
                            x,
                            y,
                            z,
                        )
                },
        decreases size - cz,
    {
        let mut cx: i32 = 0;
        while cx < size
            invariant
                0 <= cz < size,
                0 <= cx <= size,
                n == size,
                total == columns@.len(),
                world_columns_ok(size as int, columns@),
                forall|key: (i32, i32)|
                    #[trigger] m@.contains_key(key) <==> (0 <= key.0 < size && (0 <= key.1 < cz
                        || (key.1 == cz && key.0 < cx))),
                forall|key: (i32, i32)| #[trigger]
                    m@.contains_key(key) ==> {
                        let c = m@[key];
                        &&& c.wf()
                        &&& c.origin() == key
                        &&& forall|x: int, y: int, z: int|
                            in_box(x, y, z) ==> #[trigger] c.block_at(x, y, z) == generated_block(
                                columns@[key.1 * size + key.0]@,
                                x,
                                y,
                                z,
                            )
                    },
            decreases size - cx,
        {
            let czu: usize = cz as usize;
            let cxu: usize = cx as usize;
            proof {
                assert(czu * n + cxu < columns@.len()) by (nonlinear_arith)
                    requires
                        0 <= czu < size,
                        0 <= cxu < size,
                        n == size,
                        columns@.len() == size * size,
                ;
            }
            let k: usize = czu * n + cxu;
            let mut chunk = Chunk::new(cx, cz);
            generate(&mut chunk, &columns[k]);
            chunk_map_insert(&mut m, (cx, cz), chunk);
            cx = cx + 1;
        }
        cz = cz + 1;
    }
    m
}

} // verus!
