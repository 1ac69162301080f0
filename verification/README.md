# anantham_core

The core of the Anantham voxel engine, written in Verus: the data structures and algorithms
of the engine carry contracts, and Verus proves the code against them.

## Layout

- `src/` — the verified library.
  - `block`: block states, registered blocks, and shape archetypes of carved blocks.
  - `coords`: chunk geometry: world to chunk coordinates, flat block indices.
  - `chunk`: paletted chunk storage in four memory tiers, single and batched writes.
  - `compression`: moving a chunk down to the smallest tier its used palette allows.
  - `meshing_registry`, `registry`: per-state property tables and the block registry.
  - `meshing`: greedy meshing of a chunk and its neighbours into quads.
  - `meshlet`, `gpu`: meshlet grouping, the packed quad layout the mesh shader reads, and
    the flattening of many chunks into one upload.
  - `pipeline`, `vfs`: registering blocks found on disk, and naming them from their paths.
  - `world`: grouping world-coordinate writes by chunk.
  - `render`: the swapchain, queue family and window-control decisions of the renderer.
- `tests/` — tests of the library on concrete values.
- `app/` — the program around the library: the Bevy plugins and systems, file discovery,
  asset loading, input, the camera, and the Vulkan renderer.
