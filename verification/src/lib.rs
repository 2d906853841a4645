//! Voxel model authoring: voxel grids, palettes, greedy meshing and the binary glTF container.
pub mod angles;
pub mod anim;
pub mod animation;
pub mod bytes;
pub mod container;
pub mod export;
pub mod faces;
pub mod gltf;
pub mod greedy;
pub mod layout;
pub mod materials;
pub mod math;
pub mod mesh;
pub mod model;
pub mod nodes;
pub mod palette;
pub mod scene_graph;
pub mod png_io;
pub mod reader;
pub mod registry;
pub mod text;
pub mod texture;
pub mod writer;
