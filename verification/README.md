# engine

The voxel meshing core of a small OpenGL voxel engine, written in Verus.

- `src/` is the verified library: block types and directions, packed face instances,
  global/chunk position splitting, depth masks, face culling and greedy meshing of 30³
  chunks (with proofs that, whatever the depth mask, greedy meshing covers exactly the
  faces culled meshing emits, each once, and that with a depth mask that matches the chunk
  those are exactly its visible faces), chunk state and updates, the chunk map (sorting a
  scene's voxels into chunks, neighbour lookup, meshing every chunk against its
  neighbours, block edits that reach the neighbours' border copies), sparse 64-tree generation
  over a `DashMap` of voxels, indirect draw commands for combined draws, shader type
  parsing, and a tree of nested benchmark timers with the figures its report prints.
- `tests/` runs the library on concrete scenes.
- `app/` holds what stands around it: command-line options (clap), noise scene
  generation, the checks that stand before the chunk map's calls, and the benchmark report
  printer.
