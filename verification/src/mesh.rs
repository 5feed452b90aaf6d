use vstd::prelude::*;

use crate::block::Block;
use crate::chunk::{Chunk, CHUNK_H, CHUNK_W, access_ok, in_box};
use crate::world::{ChunkMap, chunk_map_get};

verus! {

/// An integer block coordinate.
#[derive(Copy, Clone, Debug, PartialEq, Eq, Structural)]
pub struct BlockPos {
    pub x: i32,
    pub y: i32,
    pub z: i32,
}

/// One corner of a visible block face: its integer position, the face it
/// belongs to (front, back, left, right, up, down) and its corner within the
/// face (0..4, which picks the texture coordinate).
#[derive(Copy, Clone, Debug, PartialEq, Eq, Structural)]
pub struct FaceVertex {
    pub position: BlockPos,
    pub face: usize,
    pub corner: usize,
}

/// The offset from a block to its neighbour across face `f`:
/// front (+z), back (-z), left (-x), right (+x), up (+y), down (-y).
pub open spec fn neighbor_offset(f: int) -> (int, int, int) {
    if f == 0 {
        (0, 0, 1)
    } else if f == 1 {
        (0, 0, -1)
    } else if f == 2 {
        (-1, 0, 0)
    } else if f == 3 {
        (1, 0, 0)
    } else if f == 4 {
        (0, 1, 0)
    } else {
        (0, -1, 0)
    }
}

/// The eight corners of the unit cube, front four first.
pub open spec fn cube_vertex(v: int) -> (int, int, int) {
    if v == 0 {
        (0, 0, 1)
    } else if v == 1 {
        (1, 0, 1)
    } else if v == 2 {
        (1, 1, 1)
    } else if v == 3 {
        (0, 1, 1)
    } else if v == 4 {
        (0, 0, 0)
    } else if v == 5 {
        (1, 0, 0)
    } else if v == 6 {
        (1, 1, 0)
    } else {
        (0, 1, 0)
    }
}

/// Which cube corner is corner `i` of face `f`; the four corners go round
/// the face.
pub open spec fn face_corner(f: int, i: int) -> int {
    let row: Seq<int> = if f == 0 {
        seq![0, 1, 2, 3]
    } else if f == 1 {
        seq![5, 4, 7, 6]
    } else if f == 2 {
        seq![4, 0, 3, 7]
    } else if f == 3 {
        seq![1, 5, 6, 2]
    } else if f == 4 {
        seq![3, 2, 6, 7]
    } else {
        seq![4, 5, 1, 0]
    };
    row[i]
}

/// The two triangles of a face, as offsets into its four corners.
pub open spec fn quad_index(i: int) -> int {
    seq![0int, 1, 2, 2, 3, 0][i]
}

/// Corner `i` of face `f` as a point of the unit cube.
pub open spec fn corner_point(f: int, i: int) -> (int, int, int) {
    cube_vertex(face_corner(f, i))
}

/// `a - b`.
pub open spec fn sub3(a: (int, int, int), b: (int, int, int)) -> (int, int, int) {
    (a.0 - b.0, a.1 - b.1, a.2 - b.2)
}

/// The cross product `a x b`.
pub open spec fn cross3(a: (int, int, int), b: (int, int, int)) -> (int, int, int) {
    (a.1 * b.2 - a.2 * b.1, a.2 * b.0 - a.0 * b.2, a.0 * b.1 - a.1 * b.0)
}

/// A face's corners lie on the side of the cube where its neighbour is: on
/// the axis of the neighbour offset, every corner sits at 1 when the offset
/// is +1 and at 0 when it is -1.
pub open spec fn corners_on_neighbor_side(f: int) -> bool {
    let d = neighbor_offset(f);
    forall|i: int|
        0 <= i < 4 ==> {
            let v = #[trigger] corner_point(f, i);
            &&& (d.0 == 1 ==> v.0 == 1) &&& (d.0 == -1 ==> v.0 == 0)
            &&& (d.1 == 1 ==> v.1 == 1) &&& (d.1 == -1 ==> v.1 == 0)
            &&& (d.2 == 1 ==> v.2 == 1) &&& (d.2 == -1 ==> v.2 == 0)
        }
}

/// Both triangles of face `f` turn counter-clockwise seen from the
/// neighbour's side: their normal is the neighbour offset.
pub open spec fn triangles_face_outward(f: int) -> bool {
    let p0 = corner_point(f, 0);
    let p1 = corner_point(f, 1);
    let p2 = corner_point(f, 2);
    let p3 = corner_point(f, 3);
    &&& cross3(sub3(p1, p0), sub3(p2, p0)) == neighbor_offset(f)
    &&& cross3(sub3(p3, p2), sub3(p0, p2)) == neighbor_offset(f)
}

/// `d` is a unit step along exactly one axis.
pub open spec fn unit_axis(d: (int, int, int)) -> bool {
    &&& -1 <= d.0 <= 1 && -1 <= d.1 <= 1 && -1 <= d.2 <= 1
    &&& (if d.0 != 0 { 1int } else { 0 }) + (if d.1 != 0 { 1int } else { 0 }) + (if d.2 != 0 {
        1int
    } else {
        0
    }) == 1
}

proof fn lemma_cross3_unit(a: (int, int, int), b: (int, int, int))
    requires
        -1 <= a.0 <= 1 && -1 <= a.1 <= 1 && -1 <= a.2 <= 1,
        -1 <= b.0 <= 1 && -1 <= b.1 <= 1 && -1 <= b.2 <= 1,
    ensures
        cross3(a, b) == (a.1 * b.2 - a.2 * b.1, a.2 * b.0 - a.0 * b.2, a.0 * b.1 - a.1 * b.0),
        forall|x: int, y: int|
            -1 <= x <= 1 && -1 <= y <= 1 ==> #[trigger] (x * y) == (if x == 0 || y == 0 {
                0
            } else if x == y {
                1
            } else {
                -1
            }),
{
    assert forall|x: int, y: int| -1 <= x <= 1 && -1 <= y <= 1 implies #[trigger] (x * y) == (
    if x == 0 || y == 0 {
        0
    } else if x == y {
        1
    } else {
        -1
    }) by {
        assert(x == -1 || x == 0 || x == 1);
        assert(y == -1 || y == 0 || y == 1);
        if x == 1 {
            assert(x * y == y) by (nonlinear_arith)
                requires
                    x == 1,
            ;
        } else if x == -1 {
            assert(x * y == -y) by (nonlinear_arith)
                requires
                    x == -1,
            ;
        } else {
            assert(x * y == 0) by (nonlinear_arith)
                requires
                    x == 0,
            ;
        }
    }
}

/// Each face is tested against the neighbour it looks at: the neighbour
/// offset of every face is a unit step along one axis, the six faces look
/// in six different directions, faces come in opposite pairs, each face's
/// corners lie on the neighbour's side of the cube, and both of its
/// triangles are wound counter-clockwise seen from that neighbour.
pub proof fn lemma_faces_look_at_their_neighbors()
    ensures
        forall|f: int|
            0 <= f < 6 ==> {
                let d = #[trigger] neighbor_offset(f);
                &&& unit_axis(d)
                &&& corners_on_neighbor_side(f)
                &&& triangles_face_outward(f)
            },
        forall|f: int, g: int|
            0 <= f < 6 && 0 <= g < 6 && f != g ==> #[trigger] neighbor_offset(f)
                != #[trigger] neighbor_offset(g),
        forall|k: int|
            0 <= k < 3 ==> {
                let a = #[trigger] neighbor_offset(2 * k);
                let b = neighbor_offset(2 * k + 1);
                a.0 == -b.0 && a.1 == -b.1 && a.2 == -b.2
            },
{
    assert forall|f: int| 0 <= f < 6 implies corners_on_neighbor_side(f) by {
        assert forall|i: int| 0 <= i < 4 implies {
            let d = neighbor_offset(f);
            let v = #[trigger] corner_point(f, i);
            &&& (d.0 == 1 ==> v.0 == 1) &&& (d.0 == -1 ==> v.0 == 0)
            &&& (d.1 == 1 ==> v.1 == 1) &&& (d.1 == -1 ==> v.1 == 0)
            &&& (d.2 == 1 ==> v.2 == 1) &&& (d.2 == -1 ==> v.2 == 0)
        } by {
            assert(f == 0 || f == 1 || f == 2 || f == 3 || f == 4 || f == 5);
            assert(i == 0 || i == 1 || i == 2 || i == 3);
        }
    }
    assert(seq![0int, 1, 2, 3][0] == 0 && seq![0int, 1, 2, 3][1] == 1 && seq![0int, 1, 2, 3][2] == 2
        && seq![0int, 1, 2, 3][3] == 3);
    assert(seq![5int, 4, 7, 6][0] == 5 && seq![5int, 4, 7, 6][1] == 4 && seq![5int, 4, 7, 6][2] == 7
        && seq![5int, 4, 7, 6][3] == 6);
    assert(seq![4int, 0, 3, 7][0] == 4 && seq![4int, 0, 3, 7][1] == 0 && seq![4int, 0, 3, 7][2] == 3
        && seq![4int, 0, 3, 7][3] == 7);
    assert(seq![1int, 5, 6, 2][0] == 1 && seq![1int, 5, 6, 2][1] == 5 && seq![1int, 5, 6, 2][2] == 6
        && seq![1int, 5, 6, 2][3] == 2);
    assert(seq![3int, 2, 6, 7][0] == 3 && seq![3int, 2, 6, 7][1] == 2 && seq![3int, 2, 6, 7][2] == 6
        && seq![3int, 2, 6, 7][3] == 7);
    assert(seq![4int, 5, 1, 0][0] == 4 && seq![4int, 5, 1, 0][1] == 5 && seq![4int, 5, 1, 0][2] == 1
        && seq![4int, 5, 1, 0][3] == 0);
    assert forall|f: int| 0 <= f < 6 implies triangles_face_outward(f) by {
        assert(f == 0 || f == 1 || f == 2 || f == 3 || f == 4 || f == 5);
        let p0 = corner_point(f, 0);
        let p1 = corner_point(f, 1);
        let p2 = corner_point(f, 2);
        let p3 = corner_point(f, 3);
        let d = neighbor_offset(f);
        lemma_cross3_unit(sub3(p1, p0), sub3(p2, p0));
        lemma_cross3_unit(sub3(p3, p2), sub3(p0, p2));
    }
    assert forall|k: int| 0 <= k < 3 implies {
        let a = #[trigger] neighbor_offset(2 * k);
        let b = neighbor_offset(2 * k + 1);
        a.0 == -b.0 && a.1 == -b.1 && a.2 == -b.2
    } by {
        assert(k == 0 || k == 1 || k == 2);
    }
}

/// `p` moved by `d`.
pub open spec fn shifted(p: BlockPos, d: (int, int, int)) -> BlockPos {
    BlockPos { x: (p.x + d.0) as i32, y: (p.y + d.1) as i32, z: (p.z + d.2) as i32 }
}

/// Moving `p` by `d` stays within `i32`.
pub open spec fn shift_fits(p: BlockPos, d: (int, int, int)) -> bool {
    &&& i32::MIN <= p.x + d.0 <= i32::MAX
    &&& i32::MIN <= p.y + d.1 <= i32::MAX
    &&& i32::MIN <= p.z + d.2 <= i32::MAX
}

/// -1, 0 or 1: which neighbouring chunk a local coordinate falls into.
pub open spec fn edge_shift(v: int) -> int {
    if v < 0 {
        -1
    } else if v >= CHUNK_W {
        1
    } else {
        0
    }
}

/// The position lies outside the chunk across an x or z border.
pub open spec fn crosses_edge(n: BlockPos) -> bool {
    n.x < 0 || n.x >= CHUNK_W || n.z < 0 || n.z >= CHUNK_W
}

/// The grid position of the chunk that holds `n`, seen from chunk `c`.
pub open spec fn neighbor_key(n: BlockPos, c: (i32, i32)) -> (int, int) {
    (c.0 + edge_shift(n.x as int), c.1 + edge_shift(n.z as int))
}

/// `n` in the coordinates of the chunk that holds it.
pub open spec fn local_pos(n: BlockPos) -> (int, int, int) {
    (n.x - CHUNK_W * edge_shift(n.x as int), n.y as int, n.z - CHUNK_W * edge_shift(n.z as int))
}

/// Every chunk in the map is well formed.
pub open spec fn chunks_wf(chunks: Map<(i32, i32), Chunk>) -> bool {
    forall|k: (i32, i32)| #[trigger] chunks.contains_key(k) ==> chunks[k].wf()
}

/// The visibility test of `n` from chunk `c` stays in `i32` arithmetic and
/// in storage range.
pub open spec fn visibility_defined(n: BlockPos, c: (i32, i32), chunks: Map<(i32, i32), Chunk>) -> bool {
    (n.y >= 0 && crosses_edge(n)) ==> {
        let k = neighbor_key(n, c);
        let l = local_pos(n);
        &&& i32::MIN <= k.0 <= i32::MAX
        &&& i32::MIN <= k.1 <= i32::MAX
        &&& chunks.contains_key((k.0 as i32, k.1 as i32)) ==> access_ok(l.0, l.1, l.2)
    }
}

/// A face that borders position `n` is shown: `n` is below the world, or
/// holds air, in this chunk or in the loaded chunk beside it. A position
/// in a chunk that is not loaded hides the face.
pub open spec fn visible(n: BlockPos, c: (i32, i32), chunks: Map<(i32, i32), Chunk>, chunk: Chunk) -> bool {
    if n.y < 0 {
        true
    } else if crosses_edge(n) {
        let k = neighbor_key(n, c);
        let key = (k.0 as i32, k.1 as i32);
        let l = local_pos(n);
        chunks.contains_key(key) && chunks[key].block_at(l.0, l.1, l.2) == Block::Air
    } else {
        chunk.block_at(n.x as int, n.y as int, n.z as int) == Block::Air
    }
}

proof fn lemma_world_column(cc: int, v: int)
    requires
        -16 <= v < 32,
    ensures
        (cc * 16 + v) / 16 == cc + edge_shift(v),
        (cc * 16 + v) % 16 == v - 16 * edge_shift(v),
{
    let s = edge_shift(v);
    assert(cc * 16 + v == (cc + s) * 16 + (v - 16 * s)) by (nonlinear_arith)
        requires
            true,
    ;
    assert(0 <= v - 16 * s < 16);
    assert((cc * 16 + v) / 16 == cc + s && (cc * 16 + v) % 16 == v - 16 * s) by (nonlinear_arith)
        requires
            cc * 16 + v == (cc + s) * 16 + (v - 16 * s),
            0 <= v - 16 * s < 16,
    ;
}

/// A face is tested against the block at the same world position: the
/// world column of `n` seen from chunk `c` is `c * 16 + n` on x and z; a
/// position below the world shows the face; inside the chunk the face is
/// shown when that block is air; across a border the face is shown
/// exactly when the chunk holding that world column (world coordinate
/// divided by 16) is loaded and its block there (world coordinate modulo
/// 16) is air.
pub proof fn lemma_visibility_reads_world_cell(
    n: BlockPos,
    c: (i32, i32),
    chunks: Map<(i32, i32), Chunk>,
    chunk: Chunk,
)
    requires
        -16 <= n.x < 32,
        -16 <= n.z < 32,
        visibility_defined(n, c, chunks),
    ensures
        n.y < 0 ==> visible(n, c, chunks, chunk),
        n.y >= 0 && !crosses_edge(n) ==> (visible(n, c, chunks, chunk) <==> chunk.block_at(
            n.x as int,
            n.y as int,
            n.z as int,
        ) == Block::Air),
        n.y >= 0 && crosses_edge(n) ==> ({
            let gx = c.0 * 16 + n.x;
            let gz = c.1 * 16 + n.z;
            let key = ((gx / 16) as i32, (gz / 16) as i32);
            visible(n, c, chunks, chunk) <==> (chunks.contains_key(key) && chunks[key].block_at(
                gx % 16,
                n.y as int,
                gz % 16,
            ) == Block::Air)
        }),
{
    lemma_world_column(c.0 as int, n.x as int);
    lemma_world_column(c.1 as int, n.z as int);
}

/// Face `f` of the block at `pos` is shown.
pub open spec fn face_visible(
    pos: BlockPos,
    f: int,
    c: (i32, i32),
    chunks: Map<(i32, i32), Chunk>,
    chunk: Chunk,
) -> bool {
    visible(shifted(pos, neighbor_offset(f)), c, chunks, chunk)
}

/// The four corners of face `f` of the block at `pos`.
pub open spec fn quad_vertices(pos: BlockPos, f: int) -> Seq<FaceVertex> {
    Seq::new(
        4,
        |i: int|
            FaceVertex {
                position: shifted(pos, cube_vertex(face_corner(f, i))),
                face: f as usize,
                corner: i as usize,
            },
    )
}

/// The six indices of a face whose corners start at `base`.
pub open spec fn quad_indices(base: int) -> Seq<u32> {
    Seq::new(6, |i: int| (base + quad_index(i)) as u32)
}

/// The corners emitted for the shown faces among the first `k` faces of
/// the block at `pos`.
pub open spec fn block_vertices(
    pos: BlockPos,
    c: (i32, i32),
    chunks: Map<(i32, i32), Chunk>,
    chunk: Chunk,
    k: nat,
) -> Seq<FaceVertex>
    decreases k,
{
    if k == 0 {
        Seq::empty()
    } else {
        let prev = block_vertices(pos, c, chunks, chunk, (k - 1) as nat);
        if face_visible(pos, k - 1, c, chunks, chunk) {
            prev + quad_vertices(pos, k - 1)
        } else {
            prev
        }
    }
}

/// The indices emitted for the shown faces among the first `k` faces of
/// the block at `pos`, when its first corner lands at `base`.
pub open spec fn block_indices(
    pos: BlockPos,
    c: (i32, i32),
    chunks: Map<(i32, i32), Chunk>,
    chunk: Chunk,
    base: int,
    k: nat,
) -> Seq<u32>
    decreases k,
{
    if k == 0 {
        Seq::empty()
    } else {
        let prev = block_indices(pos, c, chunks, chunk, base, (k - 1) as nat);
        if face_visible(pos, k - 1, c, chunks, chunk) {
            prev + quad_indices(base + block_vertices(pos, c, chunks, chunk, (k - 1) as nat).len())
        } else {
            prev
        }
    }
}

/// Every neighbour of the block at `pos` can be tested.
pub open spec fn faces_defined(pos: BlockPos, c: (i32, i32), chunks: Map<(i32, i32), Chunk>) -> bool {
    forall|f: int|
        0 <= f < 6 ==> {
            &&& shift_fits(pos, #[trigger] neighbor_offset(f))
            &&& visibility_defined(shifted(pos, neighbor_offset(f)), c, chunks)
        }
}

/// Every corner of the block at `pos` lies within `i32`.
pub open spec fn corners_fit(pos: BlockPos) -> bool {
    forall|v: int| 0 <= v < 8 ==> shift_fits(pos, #[trigger] cube_vertex(v))
}

fn neighbor(f: usize) -> (d: BlockPos)
    requires
        f < 6,
    ensures
        (d.x as int, d.y as int, d.z as int) == neighbor_offset(f as int),
{
    match f {
        0 => BlockPos { x: 0, y: 0, z: 1 },
        1 => BlockPos { x: 0, y: 0, z: -1 },
        2 => BlockPos { x: -1, y: 0, z: 0 },
        3 => BlockPos { x: 1, y: 0, z: 0 },
        4 => BlockPos { x: 0, y: 1, z: 0 },
        _ => BlockPos { x: 0, y: -1, z: 0 },
    }
}

fn cube_corner(v: usize) -> (d: BlockPos)
    requires
        v < 8,
    ensures
        (d.x as int, d.y as int, d.z as int) == cube_vertex(v as int),
{
    match v {
        0 => BlockPos { x: 0, y: 0, z: 1 },
        1 => BlockPos { x: 1, y: 0, z: 1 },
        2 => BlockPos { x: 1, y: 1, z: 1 },
        3 => BlockPos { x: 0, y: 1, z: 1 },
        4 => BlockPos { x: 0, y: 0, z: 0 },
        5 => BlockPos { x: 1, y: 0, z: 0 },
        6 => BlockPos { x: 1, y: 1, z: 0 },
        _ => BlockPos { x: 0, y: 1, z: 0 },
    }
}

fn face_corner_index(f: usize, i: usize) -> (v: usize)
    requires
        f < 6,
        i < 4,
    ensures
        v as int == face_corner(f as int, i as int),
        v < 8,
{
    let row: [usize; 4] = if f == 0 {
        [0, 1, 2, 3]
    } else if f == 1 {
        [5, 4, 7, 6]
    } else if f == 2 {
        [4, 0, 3, 7]
    } else if f == 3 {
        [1, 5, 6, 2]
    } else if f == 4 {
        [3, 2, 6, 7]
    } else {
        [4, 5, 1, 0]
    };
    row[i]
}

fn quad_offset(i: usize) -> (o: u32)
    requires
        i < 6,
    ensures
        o as int == quad_index(i as int),
{
    let quad: [u32; 6] = [0, 1, 2, 2, 3, 0];
    quad[i]
}

fn add_pos(a: BlockPos, d: BlockPos) -> (r: BlockPos)
    requires
        shift_fits(a, (d.x as int, d.y as int, d.z as int)),
    ensures
        r == shifted(a, (d.x as int, d.y as int, d.z as int)),
{
    BlockPos { x: a.x + d.x, y: a.y + d.y, z: a.z + d.z }
}

/// Whether a face bordering position `n` is shown, seen from chunk `c`
/// (whose blocks are `chunk`).
pub fn block_is_visible(n: BlockPos, c: (i32, i32), chunks: &ChunkMap, chunk: &Chunk) -> (r: bool)
    requires
        chunk.wf(),
        chunks_wf(chunks@),
        visibility_defined(n, c, chunks@),
    ensures
        r == visible(n, c, chunks@, *chunk),
{
    let upside_x = n.x < 0;
    let downside_x = n.x >= CHUNK_W;
    let upside_z = n.z < 0;
    let downside_z = n.z >= CHUNK_W;
    let outside_x = upside_x || downside_x;
    let outside_z = upside_z || downside_z;
    if n.y < 0 {
        true
    } else if outside_x || outside_z {
        let mut neighbor_x = c.0;
        let mut neighbor_z = c.1;
        let mut local_x = n.x;
        let mut local_z = n.z;
        if upside_x {
            neighbor_x = neighbor_x - 1;
            local_x = local_x + CHUNK_W;
        } else if downside_x {
            neighbor_x = neighbor_x + 1;
            local_x = local_x - CHUNK_W;
        }
        if upside_z {
            neighbor_z = neighbor_z - 1;
            local_z = local_z + CHUNK_W;
        } else if downside_z {
            neighbor_z = neighbor_z + 1;
            local_z = local_z - CHUNK_W;
        }
        match chunk_map_get(chunks, (neighbor_x, neighbor_z)) {
            Some(neighbor_chunk) => neighbor_chunk.get(local_x, n.y, local_z) == Block::Air,
            None => false,
        }
    } else {
        chunk.get(n.x, n.y, n.z) == Block::Air
    }
}

/// Each face adds four corners: at most `4 * k` among the first `k` faces.
pub proof fn lemma_block_vertices_len(
    pos: BlockPos,
    c: (i32, i32),
    chunks: Map<(i32, i32), Chunk>,
    chunk: Chunk,
    k: nat,
)
    ensures
        block_vertices(pos, c, chunks, chunk, k).len() <= 4 * k,
    decreases k,
{
    if k > 0 {
        lemma_block_vertices_len(pos, c, chunks, chunk, (k - 1) as nat);
    }
}

proof fn lemma_block_vertices_grow(
    pos: BlockPos,
    c: (i32, i32),
    chunks: Map<(i32, i32), Chunk>,
    chunk: Chunk,
    a: nat,
    b: nat,
)
    requires
        a <= b,
    ensures
        block_vertices(pos, c, chunks, chunk, a).len() <= block_vertices(
            pos,
            c,
            chunks,
            chunk,
            b,
        ).len(),
    decreases b - a,
{
    if a < b {
        lemma_block_vertices_grow(pos, c, chunks, chunk, a, (b - 1) as nat);
    }
}

/// Appends the corners and indices of every shown face of the block at
/// `pos`, in face order, numbering the corners from the current end of
/// `vertices`.
pub fn filter_faces(
    pos: BlockPos,
    vertices: &mut Vec<FaceVertex>,
    indices: &mut Vec<u32>,
    c: (i32, i32),
    chunks: &ChunkMap,
    chunk: &Chunk,
)
    requires
        chunk.wf(),
        chunks_wf(chunks@),
        faces_defined(pos, c, chunks@),
        corners_fit(pos),
        block_vertices(pos, c, chunks@, *chunk, 6).len() > 0 ==> old(vertices).len()
            + block_vertices(pos, c, chunks@, *chunk, 6).len() <= u32::MAX + 1,
    ensures
        final(vertices)@ == old(vertices)@ + block_vertices(pos, c, chunks@, *chunk, 6),
        final(indices)@ == old(indices)@ + block_indices(
            pos,
            c,
            chunks@,
            *chunk,
            old(vertices).len() as int,
            6,
        ),
{
    let ghost v0 = vertices@;
    let ghost i0 = indices@;
    let mut face_idx: usize = 0;
    while face_idx < 6
        invariant
            face_idx <= 6,
            chunk.wf(),
            chunks_wf(chunks@),
            faces_defined(pos, c, chunks@),
            corners_fit(pos),
            block_vertices(pos, c, chunks@, *chunk, 6).len() > 0 ==> v0.len() + block_vertices(
                pos,
                c,
                chunks@,
                *chunk,
                6,
            ).len() <= u32::MAX + 1,
            vertices@ == v0 + block_vertices(pos, c, chunks@, *chunk, face_idx as nat),
            indices@ == i0 + block_indices(pos, c, chunks@, *chunk, v0.len() as int, face_idx as nat),
        decreases 6 - face_idx,
    {
        proof {
            lemma_block_vertices_len(pos, c, chunks@, *chunk, face_idx as nat);
            lemma_block_vertices_grow(pos, c, chunks@, *chunk, (face_idx + 1) as nat, 6);
        }
        let ghost f = face_idx as int;
        assert(shift_fits(pos, neighbor_offset(f)));
        let n = add_pos(pos, neighbor(face_idx));
        if block_is_visible(n, c, chunks, chunk) {
            let v_offset = vertices.len() as u32;
            let ghost vb = vertices@;
            let ghost ib = indices@;
            let mut i: usize = 0;
            while i < 4
                invariant
                    i <= 4,
                    face_idx < 6,
                    corners_fit(pos),
                    vertices@ == vb + quad_vertices(pos, face_idx as int).take(i as int),
                decreases 4 - i,
            {
                let v_idx = face_corner_index(face_idx, i);
                assert(shift_fits(pos, cube_vertex(v_idx as int)));
                let position = add_pos(pos, cube_corner(v_idx));
                vertices.push(FaceVertex { position, face: face_idx, corner: i });
                assert(quad_vertices(pos, face_idx as int).take(i + 1) =~= quad_vertices(
                    pos,
                    face_idx as int,
                ).take(i as int).push(FaceVertex { position, face: face_idx, corner: i }));
                i = i + 1;
            }
            assert(quad_vertices(pos, face_idx as int).take(4) =~= quad_vertices(
                pos,
                face_idx as int,
            ));
            let mut j: usize = 0;
            while j < 6
                invariant
                    j <= 6,
                    v_offset as int + 3 <= u32::MAX,
                    indices@ == ib + quad_indices(v_offset as int).take(j as int),
                decreases 6 - j,
            {
                let q = quad_offset(j);
                let index = v_offset + q;
                indices.push(index);
                assert(quad_indices(v_offset as int).take(j + 1) =~= quad_indices(
                    v_offset as int,
                ).take(j as int).push(index));
                j = j + 1;
            }
            assert(quad_indices(v_offset as int).take(6) =~= quad_indices(v_offset as int));
            assert(vertices@ =~= v0 + block_vertices(pos, c, chunks@, *chunk, (face_idx + 1) as nat));
            assert(indices@ =~= i0 + block_indices(
                pos,
                c,
                chunks@,
                *chunk,
                v0.len() as int,
                (face_idx + 1) as nat,
            ));
        }
        face_idx = face_idx + 1;
    }
}

/// The `t`-th block visited when meshing a chunk: y outermost, then z,
/// then x.
pub open spec fn mesh_pos(t: int) -> BlockPos {
    BlockPos { x: (t % 16) as i32, y: (t / 256) as i32, z: ((t / 16) % 16) as i32 }
}

/// The corners emitted for the first `t` blocks of a chunk, in visiting
/// order; air blocks emit nothing.
pub open spec fn mesh_vertices(
    c: (i32, i32),
    chunks: Map<(i32, i32), Chunk>,
    chunk: Chunk,
    t: nat,
) -> Seq<FaceVertex>
    decreases t,
{
    if t == 0 {
        Seq::empty()
    } else {
        let prev = mesh_vertices(c, chunks, chunk, (t - 1) as nat);
        let p = mesh_pos(t - 1);
        if chunk.block_at(p.x as int, p.y as int, p.z as int) != Block::Air {
            prev + block_vertices(p, c, chunks, chunk, 6)
        } else {
            prev
        }
    }
}

/// The indices emitted for the first `t` blocks of a chunk, in visiting
/// order, each block's corners numbered after the corners before it.
pub open spec fn mesh_indices(
    c: (i32, i32),
    chunks: Map<(i32, i32), Chunk>,
    chunk: Chunk,
    t: nat,
) -> Seq<u32>
    decreases t,
{
    if t == 0 {
        Seq::empty()
    } else {
        let prev = mesh_indices(c, chunks, chunk, (t - 1) as nat);
        let p = mesh_pos(t - 1);
        if chunk.block_at(p.x as int, p.y as int, p.z as int) != Block::Air {
            prev + block_indices(
                p,
                c,
                chunks,
                chunk,
                mesh_vertices(c, chunks, chunk, (t - 1) as nat).len() as int,
                6,
            )
        } else {
            prev
        }
    }
}

/// Every solid block of the chunk can have its faces tested.
pub open spec fn mesh_defined(c: (i32, i32), chunks: Map<(i32, i32), Chunk>, chunk: Chunk) -> bool {
    forall|x: int, y: int, z: int|
        in_box(x, y, z) && #[trigger] chunk.block_at(x, y, z) != Block::Air ==> faces_defined(
            BlockPos { x: x as i32, y: y as i32, z: z as i32 },
            c,
            chunks,
        )
}

proof fn lemma_mesh_pos(x: int, y: int, z: int)
    requires
        0 <= x < 16,
        0 <= y < 256,
        0 <= z < 16,
    ensures
        mesh_pos(y * 256 + z * 16 + x) == (BlockPos { x: x as i32, y: y as i32, z: z as i32 }),
{
    let t = y * 256 + z * 16 + x;
    assert(t % 16 == x && t / 256 == y && (t / 16) % 16 == z) by (nonlinear_arith)
        requires
            t == y * 256 + z * 16 + x,
            0 <= x < 16,
            0 <= y < 256,
            0 <= z < 16,
    ;
}

/// Each block adds at most 24 corners: at most `24 * t` for the first `t`.
pub proof fn lemma_mesh_vertices_len(
    c: (i32, i32),
    chunks: Map<(i32, i32), Chunk>,
    chunk: Chunk,
    t: nat,
)
    ensures
        mesh_vertices(c, chunks, chunk, t).len() <= 24 * t,
    decreases t,
{
    if t > 0 {
        lemma_mesh_vertices_len(c, chunks, chunk, (t - 1) as nat);
        lemma_block_vertices_len(mesh_pos(t - 1), c, chunks, chunk, 6);
    }
}

proof fn lemma_block_indices_in_range(
    pos: BlockPos,
    c: (i32, i32),
    chunks: Map<(i32, i32), Chunk>,
    chunk: Chunk,
    base: int,
    k: nat,
)
    requires
        0 <= base,
        base + 24 <= u32::MAX,
        k <= 6,
    ensures
        block_indices(pos, c, chunks, chunk, base, k).len() * 2 == block_vertices(
            pos,
            c,
            chunks,
            chunk,
            k,
        ).len() * 3,
        forall|i: int|
            0 <= i < block_indices(pos, c, chunks, chunk, base, k).len() ==> base <= #[trigger] block_indices(
                pos,
                c,
                chunks,
                chunk,
                base,
                k,
            )[i] < base + block_vertices(pos, c, chunks, chunk, k).len(),
    decreases k,
{
    if k > 0 {
        lemma_block_indices_in_range(pos, c, chunks, chunk, base, (k - 1) as nat);
        lemma_block_vertices_len(pos, c, chunks, chunk, (k - 1) as nat);
        let prev = block_indices(pos, c, chunks, chunk, base, (k - 1) as nat);
        let nv = block_vertices(pos, c, chunks, chunk, (k - 1) as nat).len();
        if face_visible(pos, k - 1, c, chunks, chunk) {
            let q = quad_indices(base + nv);
            assert forall|i: int| 0 <= i < q.len() implies base + nv <= #[trigger] q[i] < base + nv
                + 4 by {
                assert(0 <= quad_index(i) < 4);
            }
            let all = block_indices(pos, c, chunks, chunk, base, k);
            assert forall|i: int| 0 <= i < all.len() implies base <= #[trigger] all[i] < base
                + block_vertices(pos, c, chunks, chunk, k).len() by {
                if i >= prev.len() {
                    assert(all[i] == q[i - prev.len()]);
                } else {
                    assert(all[i] == prev[i]);
                }
            }
        }
    }
}

/// Every index of a chunk mesh refers to one of its corners, and there are
/// six indices (two triangles) for every four corners.
pub proof fn lemma_mesh_indices_in_range(
    c: (i32, i32),
    chunks: Map<(i32, i32), Chunk>,
    chunk: Chunk,
    t: nat,
)
    requires
        t <= 65536,
    ensures
        mesh_indices(c, chunks, chunk, t).len() * 2 == mesh_vertices(c, chunks, chunk, t).len() * 3,
        forall|i: int|
            0 <= i < mesh_indices(c, chunks, chunk, t).len() ==> #[trigger] mesh_indices(
                c,
                chunks,
                chunk,
                t,
            )[i] < mesh_vertices(c, chunks, chunk, t).len(),
    decreases t,
{
    if t > 0 {
        lemma_mesh_indices_in_range(c, chunks, chunk, (t - 1) as nat);
        lemma_mesh_vertices_len(c, chunks, chunk, (t - 1) as nat);
        let p = mesh_pos(t - 1);
        let prev = mesh_indices(c, chunks, chunk, (t - 1) as nat);
        let base = mesh_vertices(c, chunks, chunk, (t - 1) as nat).len() as int;
        if chunk.block_at(p.x as int, p.y as int, p.z as int) != Block::Air {
            lemma_block_indices_in_range(p, c, chunks, chunk, base, 6);
            let b = block_indices(p, c, chunks, chunk, base, 6);
            let all = mesh_indices(c, chunks, chunk, t);
            assert forall|i: int| 0 <= i < all.len() implies #[trigger] all[i] < mesh_vertices(
                c,
                chunks,
                chunk,
                t,
            ).len() by {
                if i >= prev.len() {
                    assert(all[i] == b[i - prev.len()]);
                } else {
                    assert(all[i] == prev[i]);
                }
            }
        }
    }
}

/// In a chunk mesh, the indices a block adds refer only to the corners that
/// same block adds: adding the `t`-th visited block keeps the indices
/// before it, and every index it adds is at least the number of corners of
/// the blocks visited before it and below that number plus its own corners.
pub proof fn lemma_block_indices_use_own_corners(
    c: (i32, i32),
    chunks: Map<(i32, i32), Chunk>,
    chunk: Chunk,
    t: nat,
)
    requires
        1 <= t <= 65536,
    ensures
        mesh_indices(c, chunks, chunk, (t - 1) as nat).len() <= mesh_indices(c, chunks, chunk, t).len(),
        forall|i: int|
            0 <= i < mesh_indices(c, chunks, chunk, (t - 1) as nat).len() ==> #[trigger] mesh_indices(
                c,
                chunks,
                chunk,
                t,
            )[i] == mesh_indices(c, chunks, chunk, (t - 1) as nat)[i],
        forall|i: int|
            mesh_indices(c, chunks, chunk, (t - 1) as nat).len() <= i < mesh_indices(
                c,
                chunks,
                chunk,
                t,
            ).len() ==> mesh_vertices(c, chunks, chunk, (t - 1) as nat).len() <= #[trigger] mesh_indices(
                c,
                chunks,
                chunk,
                t,
            )[i] < mesh_vertices(c, chunks, chunk, t).len(),
{
    lemma_mesh_vertices_len(c, chunks, chunk, (t - 1) as nat);
    let p = mesh_pos(t - 1);
    let prev = mesh_indices(c, chunks, chunk, (t - 1) as nat);
    let all = mesh_indices(c, chunks, chunk, t);
    let base = mesh_vertices(c, chunks, chunk, (t - 1) as nat).len() as int;
    if chunk.block_at(p.x as int, p.y as int, p.z as int) != Block::Air {
        lemma_block_indices_in_range(p, c, chunks, chunk, base, 6);
        let b = block_indices(p, c, chunks, chunk, base, 6);
        assert forall|i: int| prev.len() <= i < all.len() implies base <= #[trigger] all[i]
            < mesh_vertices(c, chunks, chunk, t).len() by {
            assert(all[i] == b[i - prev.len()]);
        }
    }
}

/// The corners of face `f` of the block at `pos` appear together, in order,
/// among the corners emitted for the first `k` faces when that face is shown.
proof fn lemma_block_has_face(
    pos: BlockPos,
    c: (i32, i32),
    chunks: Map<(i32, i32), Chunk>,
    chunk: Chunk,
    k: nat,
    f: int,
)
    requires
        0 <= f < k <= 6,
        face_visible(pos, f, c, chunks, chunk),
    ensures
        exists|s: int|
            0 <= s && s + 4 <= block_vertices(pos, c, chunks, chunk, k).len() && #[trigger] block_vertices(
                pos,
                c,
                chunks,
                chunk,
                k,
            ).subrange(s, s + 4) == quad_vertices(pos, f),
    decreases k,
{
    let cur = block_vertices(pos, c, chunks, chunk, k);
    let prev = block_vertices(pos, c, chunks, chunk, (k - 1) as nat);
    if f == k - 1 {
        let s = prev.len() as int;
        assert(cur.subrange(s, s + 4) =~= quad_vertices(pos, f));
    } else {
        lemma_block_has_face(pos, c, chunks, chunk, (k - 1) as nat, f);
        let s = choose|s: int|
            0 <= s && s + 4 <= prev.len() && #[trigger] prev.subrange(s, s + 4) == quad_vertices(
                pos,
                f,
            );
        assert(cur.subrange(s, s + 4) =~= prev.subrange(s, s + 4));
    }
}

proof fn lemma_mesh_has_face(
    c: (i32, i32),
    chunks: Map<(i32, i32), Chunk>,
    chunk: Chunk,
    t: nat,
    t0: int,
    f: int,
)
    requires
        0 <= t0 < t,
        0 <= f < 6,
        ({
            let p = mesh_pos(t0);
            chunk.block_at(p.x as int, p.y as int, p.z as int) != Block::Air
        }),
        face_visible(mesh_pos(t0), f, c, chunks, chunk),
    ensures
        exists|s: int|
            0 <= s && s + 4 <= mesh_vertices(c, chunks, chunk, t).len() && #[trigger] mesh_vertices(
                c,
                chunks,
                chunk,
                t,
            ).subrange(s, s + 4) == quad_vertices(mesh_pos(t0), f),
    decreases t,
{
    let cur = mesh_vertices(c, chunks, chunk, t);
    let prev = mesh_vertices(c, chunks, chunk, (t - 1) as nat);
    let q = quad_vertices(mesh_pos(t0), f);
    if t0 == t - 1 {
        let p = mesh_pos(t0);
        lemma_block_has_face(p, c, chunks, chunk, 6, f);
        let bv = block_vertices(p, c, chunks, chunk, 6);
        let s = choose|s: int| 0 <= s && s + 4 <= bv.len() && #[trigger] bv.subrange(s, s + 4) == q;
        assert(cur.subrange(prev.len() + s, prev.len() + s + 4) =~= bv.subrange(s, s + 4));
    } else {
        lemma_mesh_has_face(c, chunks, chunk, (t - 1) as nat, t0, f);
        let s = choose|s: int| 0 <= s && s + 4 <= prev.len() && #[trigger] prev.subrange(s, s + 4) == q;
        assert(cur.subrange(s, s + 4) =~= prev.subrange(s, s + 4));
    }
}

/// A block emits only corners of its shown faces: every corner it adds
/// belongs to a face that is shown, is one of that face's four corners, and
/// sits at the block's position moved to that cube corner.
pub proof fn lemma_block_emits_only_visible_faces(
    pos: BlockPos,
    c: (i32, i32),
    chunks: Map<(i32, i32), Chunk>,
    chunk: Chunk,
    k: nat,
)
    requires
        k <= 6,
    ensures
        forall|i: int|
            0 <= i < block_vertices(pos, c, chunks, chunk, k).len() ==> {
                let v = #[trigger] block_vertices(pos, c, chunks, chunk, k)[i];
                &&& 0 <= v.face < k
                &&& 0 <= v.corner < 4
                &&& face_visible(pos, v.face as int, c, chunks, chunk)
                &&& v == quad_vertices(pos, v.face as int)[v.corner as int]
            },
    decreases k,
{
    if k > 0 {
        lemma_block_emits_only_visible_faces(pos, c, chunks, chunk, (k - 1) as nat);
        let prev = block_vertices(pos, c, chunks, chunk, (k - 1) as nat);
        let cur = block_vertices(pos, c, chunks, chunk, k);
        assert forall|i: int| 0 <= i < cur.len() implies {
            let v = #[trigger] cur[i];
            &&& 0 <= v.face < k
            &&& 0 <= v.corner < 4
            &&& face_visible(pos, v.face as int, c, chunks, chunk)
            &&& v == quad_vertices(pos, v.face as int)[v.corner as int]
        } by {
            if i < prev.len() {
                assert(cur[i] == prev[i]);
            } else {
                assert(cur[i] == quad_vertices(pos, k - 1)[i - prev.len()]);
            }
        }
    }
}

/// `v` is a corner of a shown face of the solid block visited `t0`-th.
pub open spec fn corner_of_shown_face(
    c: (i32, i32),
    chunks: Map<(i32, i32), Chunk>,
    chunk: Chunk,
    t0: int,
    v: FaceVertex,
) -> bool {
    let p = mesh_pos(t0);
    &&& chunk.block_at(p.x as int, p.y as int, p.z as int) != Block::Air
    &&& 0 <= v.face < 6
    &&& 0 <= v.corner < 4
    &&& face_visible(p, v.face as int, c, chunks, chunk)
    &&& v == quad_vertices(p, v.face as int)[v.corner as int]
}

/// Corner `i` of the first `t` blocks' corners is a corner of a shown face
/// of a solid block visited among the first `t`.
pub open spec fn corner_explained(
    c: (i32, i32),
    chunks: Map<(i32, i32), Chunk>,
    chunk: Chunk,
    t: nat,
    i: int,
) -> bool {
    exists|t0: int|
        0 <= t0 < t && #[trigger] corner_of_shown_face(
            c,
            chunks,
            chunk,
            t0,
            mesh_vertices(c, chunks, chunk, t)[i],
        )
}

/// A chunk mesh holds only corners of shown faces of solid blocks: every
/// corner among the first `t` blocks' corners is a corner of a shown face of
/// a solid block visited among the first `t`.
pub proof fn lemma_mesh_emits_only_visible_faces(
    c: (i32, i32),
    chunks: Map<(i32, i32), Chunk>,
    chunk: Chunk,
    t: nat,
)
    ensures
        forall|i: int|
            0 <= i < mesh_vertices(c, chunks, chunk, t).len() ==> #[trigger] corner_explained(
                c,
                chunks,
                chunk,
                t,
                i,
            ),
    decreases t,
{
    if t > 0 {
        lemma_mesh_emits_only_visible_faces(c, chunks, chunk, (t - 1) as nat);
        let prev = mesh_vertices(c, chunks, chunk, (t - 1) as nat);
        let cur = mesh_vertices(c, chunks, chunk, t);
        let p = mesh_pos(t - 1);
        lemma_block_emits_only_visible_faces(p, c, chunks, chunk, 6);
        assert forall|i: int| 0 <= i < cur.len() implies #[trigger] corner_explained(
            c,
            chunks,
            chunk,
            t,
            i,
        ) by {
            if i < prev.len() {
                assert(corner_explained(c, chunks, chunk, (t - 1) as nat, i));
                assert(cur[i] == prev[i]);
                let t0 = choose|t0: int|
                    0 <= t0 < t - 1 && #[trigger] corner_of_shown_face(c, chunks, chunk, t0, prev[i]);
                assert(corner_of_shown_face(c, chunks, chunk, t0, cur[i]));
            } else {
                let bv = block_vertices(p, c, chunks, chunk, 6);
                assert(cur[i] == bv[i - prev.len()]);
                assert(corner_of_shown_face(c, chunks, chunk, t - 1, cur[i]));
            }
        }
    }
}

/// Every shown face of every solid block of a chunk is in the chunk's mesh:
/// its four corners appear together, in order.
pub proof fn lemma_chunk_mesh_shows_visible_faces(
    c: (i32, i32),
    chunks: Map<(i32, i32), Chunk>,
    chunk: Chunk,
    pos: BlockPos,
    f: int,
)
    requires
        in_box(pos.x as int, pos.y as int, pos.z as int),
        chunk.block_at(pos.x as int, pos.y as int, pos.z as int) != Block::Air,
        0 <= f < 6,
        visible(shifted(pos, neighbor_offset(f)), c, chunks, chunk),
    ensures
        exists|s: int|
            0 <= s && s + 4 <= mesh_vertices(c, chunks, chunk, 65536).len() && #[trigger] mesh_vertices(
                c,
                chunks,
                chunk,
                65536,
            ).subrange(s, s + 4) == quad_vertices(pos, f),
{
    lemma_mesh_pos(pos.x as int, pos.y as int, pos.z as int);
    let t0 = pos.y * 256 + pos.z * 16 + pos.x;
    assert(mesh_pos(t0) == pos);
    lemma_mesh_has_face(c, chunks, chunk, 65536, t0, f);
}

/// A block whose six neighbours all lie in the same chunk and are solid
/// shows no face.
pub proof fn lemma_enclosed_block_hidden(
    pos: BlockPos,
    c: (i32, i32),
    chunks: Map<(i32, i32), Chunk>,
    chunk: Chunk,
)
    requires
        in_box(pos.x as int, pos.y as int, pos.z as int),
        forall|f: int|
            0 <= f < 6 ==> {
                let n = #[trigger] shifted(pos, neighbor_offset(f));
                &&& in_box(n.x as int, n.y as int, n.z as int)
                &&& chunk.block_at(n.x as int, n.y as int, n.z as int) != Block::Air
            },
    ensures
        block_vertices(pos, c, chunks, chunk, 6).len() == 0,
        block_indices(pos, c, chunks, chunk, 0, 6).len() == 0,
{
    assert forall|f: int| 0 <= f < 6 implies !face_visible(pos, f, c, chunks, chunk) by {
        let n = shifted(pos, neighbor_offset(f));
        assert(in_box(n.x as int, n.y as int, n.z as int));
    }
    assert(!face_visible(pos, 0, c, chunks, chunk));
    assert(!face_visible(pos, 1, c, chunks, chunk));
    assert(!face_visible(pos, 2, c, chunks, chunk));
    assert(!face_visible(pos, 3, c, chunks, chunk));
    assert(!face_visible(pos, 4, c, chunks, chunk));
    assert(!face_visible(pos, 5, c, chunks, chunk));
    reveal_with_fuel(block_vertices, 7);
    reveal_with_fuel(block_indices, 7);
}

/// A face that looks across a chunk border into a chunk that is not loaded
/// is hidden.
pub proof fn lemma_unloaded_neighbor_hides(
    n: BlockPos,
    c: (i32, i32),
    chunks: Map<(i32, i32), Chunk>,
    chunk: Chunk,
)
    requires
        n.y >= 0,
        crosses_edge(n),
        !chunks.contains_key(
            ((neighbor_key(n, c).0) as i32, (neighbor_key(n, c).1) as i32),
        ),
    ensures
        !visible(n, c, chunks, chunk),
{
}

/// A face that looks below the world is always shown.
pub proof fn lemma_below_world_shown(
    n: BlockPos,
    c: (i32, i32),
    chunks: Map<(i32, i32), Chunk>,
    chunk: Chunk,
)
    requires
        n.y < 0,
    ensures
        visible(n, c, chunks, chunk),
{
}

/// The corners and indices of every shown face of every solid block of
/// `chunk` (at grid position `c`), visiting y outermost, then z, then x.
pub fn build_chunk_mesh(c: (i32, i32), chunks: &ChunkMap, chunk: &Chunk) -> (r: (
    Vec<FaceVertex>,
    Vec<u32>,
))
    requires
        chunk.wf(),
        chunks_wf(chunks@),
        mesh_defined(c, chunks@, *chunk),
    ensures
        r.0@ == mesh_vertices(c, chunks@, *chunk, 65536),
        r.1@ == mesh_indices(c, chunks@, *chunk, 65536),
{
    let mut vertices: Vec<FaceVertex> = Vec::with_capacity(1024);
    let mut indices: Vec<u32> = Vec::with_capacity(3072);
    let mut y: i32 = 0;
    while y < CHUNK_H
        invariant
            0 <= y <= CHUNK_H,
            chunk.wf(),
            chunks_wf(chunks@),
            mesh_defined(c, chunks@, *chunk),
            vertices@ == mesh_vertices(c, chunks@, *chunk, (y * 256) as nat),
            indices@ == mesh_indices(c, chunks@, *chunk, (y * 256) as nat),
        decreases CHUNK_H - y,
    {
        let mut z: i32 = 0;
        while z < CHUNK_W
            invariant
                0 <= y < CHUNK_H,
                0 <= z <= CHUNK_W,
                chunk.wf(),
                chunks_wf(chunks@),
                mesh_defined(c, chunks@, *chunk),
                vertices@ == mesh_vertices(c, chunks@, *chunk, (y * 256 + z * 16) as nat),
                indices@ == mesh_indices(c, chunks@, *chunk, (y * 256 + z * 16) as nat),
            decreases CHUNK_W - z,
        {
            let mut x: i32 = 0;
            while x < CHUNK_W
                invariant
                    0 <= y < CHUNK_H,
                    0 <= z < CHUNK_W,
                    0 <= x <= CHUNK_W,
                    chunk.wf(),
                    chunks_wf(chunks@),
                    mesh_defined(c, chunks@, *chunk),
                    vertices@ == mesh_vertices(c, chunks@, *chunk, (y * 256 + z * 16 + x) as nat),
                    indices@ == mesh_indices(c, chunks@, *chunk, (y * 256 + z * 16 + x) as nat),
                decreases CHUNK_W - x,
            {
                let ghost t = y * 256 + z * 16 + x;
                proof {
                    lemma_mesh_pos(x as int, y as int, z as int);
                    lemma_mesh_vertices_len(c, chunks@, *chunk, t as nat);
                }
                if chunk.get(x, y, z) != Block::Air {
                    let pos = BlockPos { x, y, z };
                    assert(corners_fit(pos));
                    proof {
                        lemma_block_vertices_len(pos, c, chunks@, *chunk, 6);
                    }
                    filter_faces(pos, &mut vertices, &mut indices, c, chunks, chunk);
                }
                assert(vertices@ =~= mesh_vertices(c, chunks@, *chunk, (t + 1) as nat));
                assert(indices@ =~= mesh_indices(c, chunks@, *chunk, (t + 1) as nat));
                x = x + 1;
            }
            z = z + 1;
        }
        y = y + 1;
    }
    (vertices, indices)
}

/// Away from the ends of the `i32` range every solid block's faces can be
/// tested: the neighbouring chunk positions of `c` fit in `i32`.
pub proof fn lemma_mesh_defined_inside(c: (i32, i32), chunks: Map<(i32, i32), Chunk>, chunk: Chunk)
    requires
        i32::MIN < c.0 < i32::MAX,
        i32::MIN < c.1 < i32::MAX,
    ensures
        mesh_defined(c, chunks, chunk),
{
    assert forall|x: int, y: int, z: int|
        in_box(x, y, z) && #[trigger] chunk.block_at(x, y, z) != Block::Air implies faces_defined(
        BlockPos { x: x as i32, y: y as i32, z: z as i32 },
        c,
        chunks,
    ) by {
        let pos = BlockPos { x: x as i32, y: y as i32, z: z as i32 };
        assert forall|f: int| 0 <= f < 6 implies {
            &&& shift_fits(pos, #[trigger] neighbor_offset(f))
            &&& visibility_defined(shifted(pos, neighbor_offset(f)), c, chunks)
        } by {
            let n = shifted(pos, neighbor_offset(f));
            assert(-1 <= n.x <= 16 && -1 <= n.y <= 256 && -1 <= n.z <= 16);
        }
    }
}

/// The mesh of one chunk of the world grid.
pub struct ChunkMesh {
    pub origin: (i32, i32),
    pub vertices: Vec<FaceVertex>,
    pub indices: Vec<u32>,
}

/// Every chunk of a `size` x `size` grid is loaded and well formed.
pub open spec fn grid_loaded(size: int, chunks: Map<(i32, i32), Chunk>) -> bool {
    &&& chunks_wf(chunks)
    &&& forall|cx: i32, cz: i32|
        0 <= cx < size && 0 <= cz < size ==> #[trigger] chunks.contains_key((cx, cz))
}

/// The `j`-th mesh is the mesh of the chunk at its origin, and its origin
/// is grid cell `j` counted row by row along x.
pub open spec fn world_mesh_ok(
    size: int,
    chunks: Map<(i32, i32), Chunk>,
    j: int,
    m: ChunkMesh,
) -> bool {
    &&& 0 <= m.origin.0 < size
    &&& 0 <= m.origin.1 < size
    &&& j == m.origin.1 * size + m.origin.0
    &&& m.vertices@ == mesh_vertices(m.origin, chunks, chunks[m.origin], 65536)
    &&& m.indices@ == mesh_indices(m.origin, chunks, chunks[m.origin], 65536)
}

/// Each mesh of the world grid is culled against the whole loaded map: any
/// face of a solid block of its chunk that is shown when seen from that
/// chunk with all loaded chunks around it (including faces that look into a
/// loaded neighbouring chunk) has its four corners in the mesh.
pub proof fn lemma_world_mesh_shows_visible_faces(
    size: int,
    chunks: Map<(i32, i32), Chunk>,
    j: int,
    m: ChunkMesh,
    pos: BlockPos,
    f: int,
)
    requires
        world_mesh_ok(size, chunks, j, m),
        in_box(pos.x as int, pos.y as int, pos.z as int),
        chunks[m.origin].block_at(pos.x as int, pos.y as int, pos.z as int) != Block::Air,
        0 <= f < 6,
        visible(shifted(pos, neighbor_offset(f)), m.origin, chunks, chunks[m.origin]),
    ensures
        exists|s: int|
            0 <= s && s + 4 <= m.vertices@.len() && #[trigger] m.vertices@.subrange(s, s + 4)
                == quad_vertices(pos, f),
{
    lemma_chunk_mesh_shows_visible_faces(m.origin, chunks, chunks[m.origin], pos, f);
}

/// The world meshes come row by row along x: mesh `j` belongs to the chunk
/// at x = `j % size`, z = `j / size`.
pub proof fn lemma_world_mesh_order(size: int, chunks: Map<(i32, i32), Chunk>, j: int, m: ChunkMesh)
    requires
        world_mesh_ok(size, chunks, j, m),
    ensures
        m.origin.0 == j % size,
        m.origin.1 == j / size,
{
    let x = m.origin.0 as int;
    let z = m.origin.1 as int;
    assert(j % size == x && j / size == z) by (nonlinear_arith)
        requires
            j == z * size + x,
            0 <= x < size,
            0 <= z < size,
    ;
}

/// Meshes every chunk of a `size` x `size` grid, rows along x, z outermost.
pub fn mesh_world(size: i32, chunks: &ChunkMap) -> (r: Vec<ChunkMesh>)
    requires
        grid_loaded(size as int, chunks@),
    ensures
        r@.len() == (if size > 0 {
            size * size
        } else {
            0
        }),
        forall|j: int| 0 <= j < r@.len() ==> world_mesh_ok(size as int, chunks@, j, #[trigger] r@[j]),
{
    let mut meshes: Vec<ChunkMesh> = Vec::new();
    if size <= 0 {
        return meshes;
    }
    let mut cz: i32 = 0;
    while cz < size
        invariant
            0 <= cz <= size,
            grid_loaded(size as int, chunks@),
            meshes@.len() == cz * size,
            forall|j: int|
                0 <= j < meshes@.len() ==> world_mesh_ok(size as int, chunks@, j, #[trigger] meshes@[j]),
        decreases size - cz,
    {
        let mut cx: i32 = 0;
        while cx < size
            invariant
                0 <= cz < size,
                0 <= cx <= size,
                grid_loaded(size as int, chunks@),
                meshes@.len() == cz * size + cx,
                forall|j: int|
                    0 <= j < meshes@.len() ==> world_mesh_ok(
                        size as int,
                        chunks@,
                        j,
                        #[trigger] meshes@[j],
                    ),
            decreases size - cx,
        {
            assert(chunks@.contains_key((cx, cz)));
            let chunk = match chunk_map_get(chunks, (cx, cz)) {
                Some(chunk) => chunk,
                None => {
                    assert(false);
                    return meshes;
                },
            };
            proof {
                lemma_mesh_defined_inside((cx, cz), chunks@, *chunk);
            }
            let (vertices, indices) = build_chunk_mesh((cx, cz), chunks, chunk);
            meshes.push(ChunkMesh { origin: (cx, cz), vertices, indices });
            cx = cx + 1;
        }
        assert(cz * size + size == (cz + 1) * size) by (nonlinear_arith);
        cz = cz + 1;
    }
    meshes
}

} // verus!
