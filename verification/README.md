# voxels

Programmatic creation and editing of voxel models, exported as binary glTF 2.0 (`.glb`) and
previewed with a small CPU renderer.

- `src/` is the verified library: voxel grids and their edits, palettes and material checks,
  greedy meshing, palette atlas layout, the glTF binary buffer, materials, textures and
  animations, the GLB container, scene registries and node visibility. Every function has a
  contract proved by Verus; the PNG encoder and decoder of the `png` crate are the only outside
  code it calls.
- `app/` holds the Python bindings (pyo3), the JSON side of glTF (serde), the preview command
  line (clap) and everything that works in floating point: vertex attributes, keyframe sampling,
  camera, rasterizer and shading.
- `tests/` exercises the library on concrete values.
