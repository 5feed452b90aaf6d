use glengine::{
    block_is_visible, build_chunk_mesh, filter_faces, mesh_world, Block, BlockPos, Chunk, ChunkMap,
    FaceVertex,
};

fn pos(x: i32, y: i32, z: i32) -> BlockPos {
    BlockPos { x, y, z }
}

fn map_with(chunks: Vec<((i32, i32), Chunk)>) -> ChunkMap {
    let mut m = ChunkMap::default();
    for (k, c) in chunks {
        m.insert(k, c);
    }
    m
}

#[test]
fn visibility_inside_chunk() {
    let mut c = Chunk::new(0, 0);
    c.set(5, 10, 5, Block::Stone);
    let m = map_with(vec![]);
    assert!(!block_is_visible(pos(5, 10, 5), (0, 0), &m, &c));
    assert!(block_is_visible(pos(5, 11, 5), (0, 0), &m, &c));
    assert!(block_is_visible(pos(5, 256, 5), (0, 0), &m, &c));
}

#[test]
fn visibility_below_world() {
    let mut c = Chunk::new(0, 0);
    c.set(5, 0, 5, Block::Stone);
    let m = map_with(vec![]);
    assert!(block_is_visible(pos(5, -1, 5), (0, 0), &m, &c));
    assert!(block_is_visible(pos(-1, -1, 5), (0, 0), &m, &c));
}

#[test]
fn visibility_across_chunk_borders() {
    let c = Chunk::new(0, 0);
    let mut west = Chunk::new(-1, 0);
    west.set(15, 3, 7, Block::Stone);
    let mut north = Chunk::new(0, 1);
    north.set(2, 3, 0, Block::Dirt);
    let m = map_with(vec![((-1, 0), west), ((0, 1), north)]);
    // West neighbour: solid at its local x = 15, air above it.
    assert!(!block_is_visible(pos(-1, 3, 7), (0, 0), &m, &c));
    assert!(block_is_visible(pos(-1, 4, 7), (0, 0), &m, &c));
    // Neighbour at +z: solid at its local z = 0.
    assert!(!block_is_visible(pos(2, 3, 16), (0, 0), &m, &c));
    assert!(block_is_visible(pos(3, 3, 16), (0, 0), &m, &c));
    // Chunks that are not loaded hide the face.
    assert!(!block_is_visible(pos(16, 3, 7), (0, 0), &m, &c));
    assert!(!block_is_visible(pos(5, 3, -1), (0, 0), &m, &c));
    // A corner neighbour (-1, 1) is not loaded either.
    assert!(!block_is_visible(pos(-1, 3, 16), (0, 0), &m, &c));
}

#[test]
fn lone_block_shows_six_faces() {
    let mut c = Chunk::new(0, 0);
    c.set(5, 100, 5, Block::Stone);
    let m = map_with(vec![]);
    let mut vertices: Vec<FaceVertex> = Vec::new();
    let mut indices: Vec<u32> = Vec::new();
    filter_faces(pos(5, 100, 5), &mut vertices, &mut indices, (0, 0), &m, &c);
    assert_eq!(vertices.len(), 24);
    assert_eq!(indices.len(), 36);
    let front: Vec<BlockPos> = vertices[0..4].iter().map(|v| v.position).collect();
    assert_eq!(front, vec![pos(5, 100, 6), pos(6, 100, 6), pos(6, 101, 6), pos(5, 101, 6)]);
    let back: Vec<BlockPos> = vertices[4..8].iter().map(|v| v.position).collect();
    assert_eq!(back, vec![pos(6, 100, 5), pos(5, 100, 5), pos(5, 101, 5), pos(6, 101, 5)]);
    assert_eq!(vertices[5].face, 1);
    assert_eq!(vertices[6].corner, 2);
    assert_eq!(&indices[0..12], &[0, 1, 2, 2, 3, 0, 4, 5, 6, 6, 7, 4]);
    assert_eq!(*indices.iter().max().unwrap(), 23);
}

#[test]
fn faces_number_from_existing_vertices() {
    let mut c = Chunk::new(0, 0);
    c.set(5, 100, 5, Block::Stone);
    let m = map_with(vec![]);
    let mut vertices: Vec<FaceVertex> = vec![
        FaceVertex { position: pos(0, 0, 0), face: 0, corner: 0 };
        10
    ];
    let mut indices: Vec<u32> = vec![99];
    filter_faces(pos(5, 100, 5), &mut vertices, &mut indices, (0, 0), &m, &c);
    assert_eq!(vertices.len(), 34);
    assert_eq!(indices.len(), 37);
    assert_eq!(&indices[0..7], &[99, 10, 11, 12, 12, 13, 10]);
}

#[test]
fn edge_block_without_neighbour_chunk_hides_outer_face() {
    let mut c = Chunk::new(0, 0);
    c.set(0, 50, 8, Block::Stone);
    let m = map_with(vec![]);
    let mut vertices = Vec::new();
    let mut indices = Vec::new();
    filter_faces(pos(0, 50, 8), &mut vertices, &mut indices, (0, 0), &m, &c);
    assert_eq!(vertices.len(), 20);
    assert!(vertices.iter().all(|v| v.face != 2));
}

#[test]
fn chunk_mesh_culls_shared_faces() {
    let mut c = Chunk::new(0, 0);
    c.set(4, 20, 4, Block::Stone);
    c.set(5, 20, 4, Block::Stone);
    let mut m = map_with(vec![]);
    m.insert((0, 0), Chunk::new(0, 0));
    let (vertices, indices) = build_chunk_mesh((0, 0), &m, &c);
    assert_eq!(vertices.len(), 40);
    assert_eq!(indices.len(), 60);
    assert!(indices.iter().all(|&i| (i as usize) < vertices.len()));
    // The first block visited is (4, 20, 4): its right face is hidden.
    assert!(vertices[0..20].iter().all(|v| v.face != 3));
    assert!(vertices[20..40].iter().all(|v| v.face != 2));
}

#[test]
fn empty_chunk_has_empty_mesh() {
    let c = Chunk::new(0, 0);
    let m = map_with(vec![]);
    let (vertices, indices) = build_chunk_mesh((0, 0), &m, &c);
    assert!(vertices.is_empty());
    assert!(indices.is_empty());
}

#[test]
fn world_mesh_covers_grid() {
    let mut a = Chunk::new(0, 0);
    a.set(15, 1, 3, Block::Stone);
    let mut b = Chunk::new(1, 0);
    b.set(0, 1, 3, Block::Stone);
    let m = map_with(vec![
        ((0, 0), a),
        ((1, 0), b),
        ((0, 1), Chunk::new(0, 1)),
        ((1, 1), Chunk::new(1, 1)),
    ]);
    let meshes = mesh_world(2, &m);
    assert_eq!(meshes.len(), 4);
    assert_eq!(meshes[0].origin, (0, 0));
    assert_eq!(meshes[1].origin, (1, 0));
    assert_eq!(meshes[2].origin, (0, 1));
    // The two blocks touch across the chunk border: one face each is hidden.
    assert_eq!(meshes[0].vertices.len(), 20);
    assert_eq!(meshes[1].vertices.len(), 20);
    assert!(meshes[0].vertices.iter().all(|v| v.face != 3));
    assert!(meshes[1].vertices.iter().all(|v| v.face != 2));
    assert!(meshes[3].vertices.is_empty());
}

#[test]
fn enclosed_block_shows_nothing() {
    let mut c = Chunk::new(0, 0);
    for (x, y, z) in [(5, 5, 5), (5, 5, 6), (5, 5, 4), (4, 5, 5), (6, 5, 5), (5, 6, 5), (5, 4, 5)] {
        c.set(x, y, z, Block::Dirt);
    }
    let m = map_with(vec![]);
    let mut vertices = Vec::new();
    let mut indices = Vec::new();
    filter_faces(pos(5, 5, 5), &mut vertices, &mut indices, (0, 0), &m, &c);
    assert!(vertices.is_empty());
    assert!(indices.is_empty());
}

#[test]
fn empty_grid_has_no_meshes() {
    let m = map_with(vec![]);
    assert!(mesh_world(0, &m).is_empty());
    assert!(mesh_world(-2, &m).is_empty());
}
