//! The glTF 2.0 document records that this library builds and reads with integer content only.
//! Every index field refers to an entry of the document's matching top-level array.
use vstd::prelude::*;

use std::collections::HashMap;

verus! {

/// Free-form string properties attached to nodes, meshes and animations.
pub type Dict = HashMap<String, String>;

/// Component type code of 32-bit unsigned integers.
pub const COMPONENT_TYPE_UNSIGNED_INT: u32 = 5125;

/// Component type code of 32-bit floats.
pub const COMPONENT_TYPE_FLOAT: u32 = 5126;

/// Buffer view target of vertex attributes.
pub const TARGET_ARRAY_BUFFER: u32 = 34962;

/// Buffer view target of vertex indices.
pub const TARGET_ELEMENT_ARRAY_BUFFER: u32 = 34963;

/// Sampler filter: nearest texel.
pub const FILTER_NEAREST: u32 = 9728;

/// Sampler wrap mode: clamp to the edge.
pub const WRAP_CLAMP_TO_EDGE: u32 = 33071;

/// Metadata about the document.
pub struct Asset {
    pub version: String,
    pub generator: Option<String>,
}

impl Asset {
    /// glTF version "2.0", generated by "voxels".
    pub fn new() -> (a: Asset)
        ensures
            a.version@ == "2.0"@,
            a.generator matches Some(g) && g@ == "voxels"@,
    {
        Asset { version: String::from_str("2.0"), generator: Some(String::from_str("voxels")) }
    }
}

/// A scene: its root nodes.
pub struct Scene {
    pub nodes: Vec<u32>,
}

/// The vertex attributes of a primitive: accessor indices.
#[derive(Copy, Clone, PartialEq, Eq, Structural, Debug)]
pub struct Attributes {
    pub position: u32,
    pub normal: u32,
    pub texcoord_0: u32,
}

/// A contiguous range of buffer 0.
#[derive(Copy, Clone, PartialEq, Eq, Structural, Debug)]
pub struct BufferView {
    pub buffer: u32,
    pub byte_offset: u32,
    pub byte_length: u32,
    pub target: Option<u32>,
}

/// Buffer 0, the GLB file's BIN chunk.
#[derive(Copy, Clone, PartialEq, Eq, Structural, Debug)]
pub struct Buffer {
    pub byte_length: u32,
}

/// A reference to a texture.
#[derive(Copy, Clone, PartialEq, Eq, Structural, Debug)]
pub struct TextureInfo {
    pub index: u32,
}

/// The textures of the metallic-roughness material model.
#[derive(Copy, Clone, PartialEq, Eq, Structural, Debug)]
pub struct PbrMetallicRoughness {
    pub base_color_texture: Option<TextureInfo>,
    pub metallic_roughness_texture: Option<TextureInfo>,
}

/// A texture: a sampler and an image.
#[derive(Copy, Clone, PartialEq, Eq, Structural, Debug)]
pub struct Texture {
    pub sampler: u32,
    pub source: u32,
}

/// Texture sampling parameters.
#[derive(Copy, Clone, PartialEq, Eq, Structural, Debug)]
pub struct Sampler {
    pub mag_filter: u32,
    pub min_filter: u32,
    pub wrap_s: u32,
    pub wrap_t: u32,
}

/// An image stored in a buffer view.
pub struct Image {
    pub mime_type: String,
    pub buffer_view: u32,
}

/// The node property an animation channel drives.
pub struct AnimationChannelTarget {
    pub node: u32,
    pub path: String,
}

/// An animation channel: a sampler and its target.
pub struct AnimationChannel {
    pub sampler: u32,
    pub target: AnimationChannelTarget,
}

/// An animation sampler: keyframe times, values and interpolation (LINEAR when absent).
pub struct AnimationSampler {
    pub input: u32,
    pub output: u32,
    pub interpolation: Option<String>,
}

/// A named animation.
pub struct Animation {
    pub name: Option<String>,
    pub channels: Vec<AnimationChannel>,
    pub samplers: Vec<AnimationSampler>,
    pub extras: Option<Dict>,
}

} // verus!
