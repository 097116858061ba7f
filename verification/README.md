# torxel

A chunk manager for a voxel world laid out on a torus, written in Verus.

The world is a grid of chunks (16 × 64 × 16 cells) whose coordinates wrap
around in x and z.  An active window of 16 × 16 chunks around the player
lives in two pools (one published for reading, one being written) that are
swapped once a frame; a small shadow pool holds far chunks that the
simulation asks for, with least-recently-used eviction.  A background
worker loads and saves chunk records of the world file.

## Layout

- `src/` — the verified library:
  - `voxel/` — cell layout, torus topology, materials, chunk pools, the
    shadow pool and its slot map;
  - `manager/` — the chunk manager (window, slot metadata, load and save
    queues), dirty masks, and the copy from the shadow pool;
  - `io/` — the world file format, a byte codec for cells and headers, what
    the worker computes, and the staging buffers;
  - `queues/` — event queues between systems;
  - `systems/` — each per-frame system as a function on the library's state;
  - `render/` — mesh storage, visible-face computation, render bookkeeping
    and the camera's discrete settings;
  - `generator.rs` — flat world generation.
- `tests/` — tests of the library.
- `app/` — the Bevy application around the library: the plugin and its
  system wiring, the I/O worker thread, the camera and mesh vertex data
  (floating point), the debug report, and the `generate_world` subcommand.
