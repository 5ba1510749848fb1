# seishin

The rules of a small data-driven 2D game engine, written in Verus and proved
against their contracts: entity worlds and id allocation, scene loading,
resolution of scene entities over their prefabs and the merging of their
sprite and UI patches, main-scene loading as a run of planned steps, scene
diffing and reloading, render graphs and draw order, input state, asset and
audio bookkeeping, tile maps, procedural generation, project paths and the
project tooling's text processing.

- `src/` is the verified library. Each module states its data as views
  (`Seq`, `Set`, `Map` of plain values) and its functions' results over them.
- `tests/` runs the library on concrete values.
- `app/` holds what the library cannot: file and device I/O, TOML documents
  through serde, the audio device, and everything computed in floating point
  (transforms, sizes, colors, collision boxes, walkability), including the
  application of the transform patches that the library's prefab resolution
  hands back in order, and the driver that runs the library's main-scene
  steps.
