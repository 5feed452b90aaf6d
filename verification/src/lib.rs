//! Voxel terrain core: chunk storage, column generation, face culling and
//! mesh assembly for a small block-world renderer.

pub mod block;
pub mod chunk;
pub mod embedded;
pub mod input;
pub mod mesh;
pub mod model;
pub mod terrain;
pub mod ui;
pub mod world;

pub use block::Block;
pub use chunk::{Chunk, CHUNK_H, CHUNK_VOL, CHUNK_W};
pub use terrain::{Biome, Column, SEA_LEVEL, column_block, generate, generate_world};
pub use world::ChunkMap;
pub use mesh::{BlockPos, ChunkMesh, FaceVertex, block_is_visible, build_chunk_mesh, filter_faces, mesh_world};
pub use model::{MergedGeometry, MeshSource, SubMesh, merge_meshes};
pub use embedded::{EmbeddedTexture, RgbaPixels, Texel, embedded_image, embedded_images, texels_to_rgba};
pub use input::{FrameCounter, Key, MoveDir, key_move};
pub use ui::{Data2D, UI2D, Window2D};
