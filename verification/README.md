# glengine

A small OpenGL block-world renderer. The library (`src/`) holds the parts
that decide what the world looks like, with Verus contracts:

- `chunk`: 16 x 256 x 16 block storage with reads and writes;
- `terrain`: filling chunks from per-column heights and biomes, and building
  a square grid of chunks;
- `world`: the chunk map (`rustc_hash::FxHashMap`) behind trusted wrappers;
- `mesh`: face culling against neighbouring blocks and chunks, and assembly
  of corner and index buffers per chunk;
- `model`: joining the meshes of a model file into one index buffer with
  sub-mesh ranges, and decoding embedded textures (`image`);
- `input`: key-to-movement mapping and the frame-rate counter;
- `ui`: the list of 2D windows.

`app/` is the program around it: window and GL context (winit, glium,
imgui), the floating-point camera, bounds and frustum tests, Perlin noise
sampling, model file loading and drawing.
