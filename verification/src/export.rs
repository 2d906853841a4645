//! From models and palettes to meshes and material data: the material buckets of a palette, the
//! atlas rows of each bucket, and the mesh of a model.
use vstd::prelude::*;

use crate::faces::{grid_ok, layer_count, layer_ok, FaceLayer};
use crate::layout::{build_palette_layout, distinct_keys, ids_with_key, layout_of, lemma_layout_buckets, PaletteLayout};
use crate::materials::{material_data_ok, MaterialData};
use crate::math::Int3;
use crate::mesh::{build_mesh, layout_fits, mesh_of, MeshData};
use crate::model::{dims_ok, grid_len, Model};
use crate::palette::{is_zero_bits, Color, Material, Palette};

verus! {

/// `-0.0` read as `+0.0`; every other bit pattern as it is.
pub open spec fn zero_normalized(bits: u64) -> u64 {
    if bits == 0x8000_0000_0000_0000 {
        0
    } else {
        bits
    }
}

/// The material-level key of a material: its index of refraction and emissive strength, the
/// only properties glTF keeps per material rather than per texel. `-0.0` counts as `+0.0`.
pub open spec fn key_of(m: Material) -> (u64, u64) {
    (zero_normalized(m.ior), zero_normalized(m.emissive))
}

/// Two materials share a bucket key exactly when their indices of refraction are the same number
/// and so are their emissive strengths: equal bit patterns, with `+0.0` and `-0.0` counting as
/// the same number.
pub proof fn lemma_same_key_same_values(m1: Material, m2: Material)
    ensures
        key_of(m1) == key_of(m2) <==> ((m1.ior == m2.ior || ((m1.ior == 0 || m1.ior == 0x8000_0000_0000_0000)
            && (m2.ior == 0 || m2.ior == 0x8000_0000_0000_0000))) && (m1.emissive == m2.emissive || ((
        m1.emissive == 0 || m1.emissive == 0x8000_0000_0000_0000) && (m2.emissive == 0 || m2.emissive
            == 0x8000_0000_0000_0000)))),
{
}

/// The keys of a palette's materials, by color id.
pub open spec fn palette_keys(ms: Seq<Material>) -> Seq<(u64, u64)> {
    ms.map_values(|m: Material| key_of(m))
}

/// Which of a palette's materials are opaque (transmission exactly 0), by color id.
pub open spec fn palette_opaque(ms: Seq<Material>) -> Seq<bool> {
    ms.map_values(|m: Material| is_zero_bits(m.transmission))
}

/// The byte form of a model's voxels: 0 for empty, the material code otherwise.
pub open spec fn model_bytes(m: Model) -> Seq<u8> {
    m.data@.map_values(
        |c: Option<crate::palette::MaterialCode>|
            match c {
                Some(code) => code.spec_code(),
                None => 0u8,
            },
    )
}

/// The bucket key of a material with index of refraction `ior` and emissive strength
/// `emissive` (bit patterns); `-0.0` is taken as `+0.0`.
pub fn bucket_key(ior: u64, emissive: u64) -> (key: (u64, u64))
    ensures
        key == (zero_normalized(ior), zero_normalized(emissive)),
{
    let norm = |x: u64| -> (r: u64)
        ensures
            r == zero_normalized(x),
        {
            if x == 0x8000_0000_0000_0000 {
                0
            } else {
                x
            }
        };
    (norm(ior), norm(emissive))
}

/// The keys and opacity flags of the materials of `palette`, by color id.
fn palette_props(palette: &Palette) -> (r: (Vec<(u64, u64)>, Vec<bool>))
    ensures
        r.0@ == palette_keys(palette.materials@),
        r.1@ == palette_opaque(palette.materials@),
{
    let mut keys: Vec<(u64, u64)> = Vec::new();
    let mut opaque: Vec<bool> = Vec::new();
    let mut k: usize = 0;
    while k < palette.materials.len()
        invariant
            k <= palette.materials@.len(),
            keys@ == palette_keys(palette.materials@.take(k as int)),
            opaque@ == palette_opaque(palette.materials@.take(k as int)),
        decreases palette.materials@.len() - k,
    {
        let m = palette.materials[k];
        keys.push(bucket_key(m.ior, m.emissive));
        let t = m.transmission;
        opaque.push(t == 0 || t == 0x8000_0000_0000_0000);
        k = k + 1;
        assert(keys@ =~= palette_keys(palette.materials@.take(k as int)));
        assert(opaque@ =~= palette_opaque(palette.materials@.take(k as int)));
    }
    assert(palette.materials@.take(palette.materials@.len() as int) =~= palette.materials@);
    (keys, opaque)
}

/// The material buckets of `palette` and the texel of every color.
pub fn palette_layout(palette: &Palette) -> (layout: PaletteLayout)
    requires
        palette.materials@.len() <= 255,
    ensures
        layout_of(palette_keys(palette.materials@), layout),
{
    let (keys, _) = palette_props(palette);
    build_palette_layout(&keys)
}

/// The per-material atlas bytes the exporter needs besides the palette: for each color id, its
/// roughness, metallic and transmission factors scaled to 0..=255.
pub struct QuantizedProps {
    pub roughness: u8,
    pub metallic: u8,
    pub transmission: u8,
}

/// The material data of bucket `b` of `layout`: its colors' base color, (roughness, metallic)
/// and transmission bytes in texel order, the bucket's first color's ior, emissive strength and
/// volume, and a one-row atlas as wide as the bucket.
pub open spec fn bucket_data_ok(
    ms: Seq<Material>,
    q: Seq<QuantizedProps>,
    colors: Seq<u8>,
    d: MaterialData,
) -> bool {
    let first = ms[colors[0] as int];
    &&& d.ior == first.ior
    &&& d.emissive == first.emissive
    &&& d.volume == first.volume
    &&& d.atlas_width == colors.len()
    &&& d.atlas_height == 1
    &&& d.base_color@ == colors.map_values(|id: u8| ms[id as int].color)
    &&& d.metallic_roughness@ == colors.map_values(|id: u8| (q[id as int].roughness, q[id as int].metallic))
    &&& d.transmission@ == colors.map_values(|id: u8| q[id as int].transmission)
}

/// In the material data of a bucket, texel `k` of the metallic-roughness atlas holds 0, then the
/// quantized roughness of the bucket's `k`-th color, then its quantized metallic factor.
pub proof fn lemma_bucket_mr_texels(ms: Seq<Material>, q: Seq<QuantizedProps>, colors: Seq<u8>, d: MaterialData)
    requires
        bucket_data_ok(ms, q, colors, d),
    ensures
        crate::materials::mr_bytes(d.metallic_roughness@).len() == 3 * colors.len(),
        forall|k: int|
            0 <= k < colors.len() ==> #[trigger] crate::materials::rgb_texel(
                crate::materials::mr_bytes(d.metallic_roughness@),
                k,
            ) == (0u8, q[colors[k] as int].roughness, q[colors[k] as int].metallic),
{
    crate::materials::lemma_mr_bytes_channels(d.metallic_roughness@);
    assert forall|k: int| 0 <= k < colors.len() implies #[trigger] crate::materials::rgb_texel(
        crate::materials::mr_bytes(d.metallic_roughness@),
        k,
    ) == (0u8, q[colors[k] as int].roughness, q[colors[k] as int].metallic) by {
        assert(d.metallic_roughness@[k] == (q[colors[k] as int].roughness, q[colors[k] as int].metallic));
    }
}

/// A material counts as opaque exactly when its transmission is zero, `+0.0` or `-0.0`. So a
/// face whose neighbour has another color and a transmission other than zero is always drawn,
/// and a face whose neighbour has zero transmission never is.
pub proof fn lemma_opaque_exactly_without_transmission(ms: Seq<Material>, a: u8, b: u8)
    requires
        (b as int) < ms.len(),
    ensures
        palette_opaque(ms).len() == ms.len(),
        palette_opaque(ms)[b as int] <==> (ms[b as int].transmission == 0 || ms[b as int].transmission
            == 0x8000_0000_0000_0000),
        a != b && ms[b as int].transmission != 0 && ms[b as int].transmission != 0x8000_0000_0000_0000
            ==> crate::faces::face_shows(a, Some(b), palette_opaque(ms)),
        (ms[b as int].transmission == 0 || ms[b as int].transmission == 0x8000_0000_0000_0000)
            ==> !crate::faces::face_shows(a, Some(b), palette_opaque(ms)),
{
}

/// The material data of every bucket of `layout`, in bucket order.
pub fn build_palette_data(
    materials: &Vec<Material>,
    quantized: &Vec<QuantizedProps>,
    layout: &PaletteLayout,
) -> (data: Vec<MaterialData>)
    requires
        quantized@.len() == materials@.len(),
        forall|b: int|
            0 <= b < layout.buckets@.len() ==> (#[trigger] layout.buckets@[b]).colors@.len() > 0
                && layout.buckets@[b].colors@.len() <= 256 && forall|i: int|
                0 <= i < layout.buckets@[b].colors@.len() ==> (#[trigger] layout.buckets@[b].colors@[i] as int)
                    < materials@.len(),
    ensures
        data@.len() == layout.buckets@.len(),
        forall|b: int|
            0 <= b < data@.len() ==> bucket_data_ok(
                materials@,
                quantized@,
                layout.buckets@[b].colors@,
                #[trigger] data@[b],
            ),
{
    let mut out: Vec<MaterialData> = Vec::new();
    let mut b: usize = 0;
    while b < layout.buckets.len()
        invariant
            b <= layout.buckets@.len(),
            quantized@.len() == materials@.len(),
            forall|b2: int|
                0 <= b2 < layout.buckets@.len() ==> (#[trigger] layout.buckets@[b2]).colors@.len() > 0
                    && layout.buckets@[b2].colors@.len() <= 256 && forall|i: int|
                    0 <= i < layout.buckets@[b2].colors@.len() ==> (#[trigger] layout.buckets@[b2].colors@[i] as int)
                        < materials@.len(),
            out@.len() == b,
            forall|b2: int|
                0 <= b2 < b ==> bucket_data_ok(materials@, quantized@, layout.buckets@[b2].colors@, #[trigger] out@[b2]),
        decreases layout.buckets@.len() - b,
    {
        let colors = &layout.buckets[b].colors;
        let ghost cs = colors@;
        assert(layout.buckets@[b as int].colors@.len() > 0);
        let mut base_color: Vec<Color> = Vec::new();
        let mut metallic_roughness: Vec<(u8, u8)> = Vec::new();
        let mut transmission: Vec<u8> = Vec::new();
        let mut k: usize = 0;
        while k < colors.len()
            invariant
                cs == colors@,
                k <= cs.len(),
                quantized@.len() == materials@.len(),
                forall|i: int| 0 <= i < cs.len() ==> (#[trigger] cs[i] as int) < materials@.len(),
                base_color@ == cs.take(k as int).map_values(|id: u8| materials@[id as int].color),
                metallic_roughness@ == cs.take(k as int).map_values(
                    |id: u8| (quantized@[id as int].roughness, quantized@[id as int].metallic),
                ),
                transmission@ == cs.take(k as int).map_values(|id: u8| quantized@[id as int].transmission),
            decreases cs.len() - k,
        {
            let id = colors[k] as usize;
            assert((cs[k as int] as int) < materials@.len());
            base_color.push(materials[id].color);
            let q = &quantized[id];
            metallic_roughness.push((q.roughness, q.metallic));
            transmission.push(q.transmission);
            k = k + 1;
            assert(base_color@ =~= cs.take(k as int).map_values(|id: u8| materials@[id as int].color));
            assert(metallic_roughness@ =~= cs.take(k as int).map_values(
                |id: u8| (quantized@[id as int].roughness, quantized@[id as int].metallic),
            ));
            assert(transmission@ =~= cs.take(k as int).map_values(|id: u8| quantized@[id as int].transmission));
        }
        assert(cs.take(cs.len() as int) =~= cs);
        let first = materials[colors[0] as usize];
        out.push(
            MaterialData {
                ior: first.ior,
                emissive: first.emissive,
                volume: first.volume,
                atlas_width: colors.len() as u32,
                atlas_height: 1,
                base_color,
                metallic_roughness,
                transmission,
            },
        );
        b = b + 1;
    }
    out
}

/// The material data of `palette`, one entry per material bucket of its layout in bucket order:
/// each bucket's atlas row and material-level properties as `bucket_data_ok` describes them, the
/// bucket holding the ids of the colors with one key, in increasing order. `quantized` gives each
/// color's roughness, metallic and transmission bytes.
pub fn export_palette(palette: &Palette, quantized: &Vec<QuantizedProps>) -> (data: Vec<MaterialData>)
    requires
        palette.materials@.len() <= 255,
        quantized@.len() == palette.materials@.len(),
    ensures
        ({
            let keys = palette_keys(palette.materials@);
            let dk = distinct_keys(keys, keys.len() as int);
            &&& data@.len() == dk.len()
            &&& forall|b: int|
                0 <= b < data@.len() ==> bucket_data_ok(
                    palette.materials@,
                    quantized@,
                    ids_with_key(keys, keys.len() as int, dk[b]),
                    #[trigger] data@[b],
                ) && material_data_ok(data@[b])
        }),
{
    let layout = palette_layout(palette);
    let ghost keys = palette_keys(palette.materials@);
    proof {
        lemma_layout_buckets(keys, layout);
    }
    let data = build_palette_data(&palette.materials, quantized, &layout);
    proof {
        let dk = distinct_keys(keys, keys.len() as int);
        assert forall|b: int| 0 <= b < data@.len() implies bucket_data_ok(
            palette.materials@,
            quantized@,
            ids_with_key(keys, keys.len() as int, dk[b]),
            #[trigger] data@[b],
        ) && material_data_ok(data@[b]) by {
            let colors = layout.buckets@[b].colors@;
            assert(colors == ids_with_key(keys, keys.len() as int, dk[b]));
            assert(bucket_data_ok(palette.materials@, quantized@, colors, data@[b]));
            assert(colors.len() > 0 && colors.len() <= 256);
        }
    }
    data
}

/// The voxel bytes of `model`: 0 for an empty voxel, the material code otherwise.
pub fn model_data_bytes(model: &Model) -> (bytes: Vec<u8>)
    ensures
        bytes@ == model_bytes(*model),
{
    let mut bytes: Vec<u8> = Vec::new();
    let mut k: usize = 0;
    while k < model.data.len()
        invariant
            k <= model.data@.len(),
            bytes@ == model_bytes(*model).take(k as int),
        decreases model.data@.len() - k,
    {
        let b = match model.data[k] {
            Some(code) => code.code(),
            None => 0,
        };
        bytes.push(b);
        k = k + 1;
        assert(bytes@ =~= model_bytes(*model).take(k as int));
    }
    assert(model_bytes(*model).take(model.data@.len() as int) =~= model_bytes(*model));
    bytes
}

/// Every voxel of `model` holds a material of `palette`.
pub open spec fn codes_within(model: Model, palette: Palette) -> bool {
    forall|k: int|
        0 <= k < model.data@.len() ==> (#[trigger] model.data@[k] matches Some(c) ==> c.spec_index()
            < palette.materials@.len())
}

/// The greedy mesh of `model`, whose voxels hold materials of `palette`: one primitive per
/// material bucket of the palette that has faces (see `build_mesh`).
pub fn export_model(model: &Model, palette: &Palette) -> (mesh: MeshData)
    requires
        model.wf(),
        palette.materials@.len() <= 255,
        codes_within(*model, *palette),
    ensures
        exists|layout: PaletteLayout, layers: Seq<FaceLayer>|
            #![trigger mesh_of(layers, layout, mesh)]
            {
                let dims = Int3 { x: model.dims.x, y: model.dims.y, z: model.dims.z };
                &&& layout_of(palette_keys(palette.materials@), layout)
                &&& layers.len() == layer_count(dims)
                &&& forall|k: int|
                    0 <= k < layers.len() ==> layer_ok(
                        dims,
                        model_bytes(*model),
                        palette_opaque(palette.materials@),
                        k,
                        #[trigger] layers[k],
                    )
                &&& mesh_of(layers, layout, mesh)
            },
{
    let (keys, opaque) = palette_props(palette);
    let layout = build_palette_layout(&keys);
    let data = model_data_bytes(model);
    let dims = Int3 { x: model.dims.x, y: model.dims.y, z: model.dims.z };
    proof {
        assert(data@.len() == dims.x * dims.y * dims.z);
        assert forall|k: int| 0 <= k < data@.len() implies (#[trigger] data@[k]) == 0 || data@[k] - 1 < opaque@.len() by {
            if model.data@[k] is Some {
                let c = model.data@[k]->0;
                c.lemma_index_of_code();
            }
        }
        assert forall|c: int| 0 <= c < opaque@.len() implies (#[trigger] layout.color_refs@[c]).0 < layout.buckets@.len() by {
            assert(0 <= c < keys@.len());
        }
    }
    build_mesh(dims, &data, &opaque, &layout)
}

} // verus!
