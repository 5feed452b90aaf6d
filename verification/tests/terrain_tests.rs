use glengine::{column_block, generate, generate_world, Biome, Block, Chunk, Column, SEA_LEVEL};

fn grass() -> Biome {
    Biome { surface: Block::Grass, subsurface: Block::Dirt }
}

fn sand() -> Biome {
    Biome { surface: Block::Sand, subsurface: Block::Sand }
}

#[test]
fn column_layers() {
    let b = grass();
    let top = 70;
    assert_eq!(column_block(0, top, &b), Block::Bedrock);
    assert_eq!(column_block(1, top, &b), Block::Stone);
    assert_eq!(column_block(65, top, &b), Block::Stone);
    assert_eq!(column_block(66, top, &b), Block::Dirt);
    assert_eq!(column_block(68, top, &b), Block::Dirt);
    assert_eq!(column_block(69, top, &b), Block::Grass);
    assert_eq!(column_block(70, top, &b), Block::Air);
    assert_eq!(column_block(255, top, &b), Block::Air);
}

#[test]
fn low_column_is_flooded() {
    let b = sand();
    let top = 60;
    assert_eq!(column_block(55, top, &b), Block::Stone);
    assert_eq!(column_block(56, top, &b), Block::Sand);
    assert_eq!(column_block(59, top, &b), Block::Sand);
    assert_eq!(column_block(60, top, &b), Block::Water);
    assert_eq!(column_block(SEA_LEVEL - 1, top, &b), Block::Water);
    assert_eq!(column_block(SEA_LEVEL, top, &b), Block::Air);
}

#[test]
fn bedrock_wins_at_the_bottom() {
    assert_eq!(column_block(0, -5, &grass()), Block::Bedrock);
    assert_eq!(column_block(1, 2, &grass()), Block::Grass);
}

fn columns(top_of: impl Fn(i32, i32) -> i32) -> Vec<Column> {
    let mut v = Vec::new();
    for x in 0..16 {
        for z in 0..16 {
            let biome = if x < 8 { grass() } else { sand() };
            v.push(Column { top: top_of(x, z), biome });
        }
    }
    v
}

#[test]
fn generate_fills_columns() {
    let cols = columns(|x, z| 60 + x + z);
    let mut c = Chunk::new(2, 5);
    generate(&mut c, &cols);
    for x in 0..16 {
        for z in 0..16 {
            let col = cols[(x * 16 + z) as usize];
            for y in 0..256 {
                assert_eq!(c.get(x, y, z), column_block(y, col.top, &col.biome));
            }
        }
    }
    // A sand column with its surface at y = 60 + 9 + 3 - 1.
    assert_eq!(c.get(9, 71, 3), Block::Sand);
    assert_eq!(c.get(9, 72, 3), Block::Air);
    assert_eq!(c.get(2, 62, 1), Block::Grass);
    assert_eq!(c.get(2, 63, 1), Block::Water);
    assert_eq!(c.get(2, 64, 1), Block::Air);
    assert_eq!(c.get(0, 57, 0), Block::Dirt);
    assert_eq!(c.get(0, 61, 0), Block::Water);
}

#[test]
fn generate_world_builds_the_grid() {
    let size = 3;
    let mut all = Vec::new();
    for cz in 0..size {
        for cx in 0..size {
            all.push(columns(move |_, _| 61 + cx * 10 + cz));
        }
    }
    let world = generate_world(size, &all);
    assert_eq!(world.len(), 9);
    for cz in 0..size {
        for cx in 0..size {
            let chunk = &world[&(cx, cz)];
            let top = 61 + cx * 10 + cz;
            assert_eq!(chunk.get(4, top - 1, 4), Block::Grass);
            assert_eq!(chunk.get(4, top, 4), if top < SEA_LEVEL { Block::Water } else { Block::Air });
            assert_eq!(chunk.get(12, top - 1, 4), Block::Sand);
        }
    }
    assert!(world.get(&(3, 0)).is_none());
    assert!(world.get(&(-1, 0)).is_none());
}

#[test]
fn empty_grid_has_no_chunks() {
    assert!(generate_world(0, &vec![]).is_empty());
    assert!(generate_world(-3, &vec![]).is_empty());
}
