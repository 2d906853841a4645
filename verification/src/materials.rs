//! Turns the material buckets of a palette into glTF materials: atlas textures encoded as PNG
//! images in the binary buffer, and the material-level extensions they need.
use vstd::prelude::*;

use crate::container::padded;
use crate::gltf::{BufferView, Image, Sampler, Texture, FILTER_NEAREST, WRAP_CLAMP_TO_EDGE};
use crate::palette::{is_zero_bits, Color, Volume};
use crate::png_io::{encode_png, png_encoding, PngColorType};
use crate::writer::{view_after, BinWriter};

verus! {

/// The bit pattern of the `f64` value 1.5, glTF's default index of refraction.
pub const DEFAULT_IOR_BITS: u64 = 0x3FF8_0000_0000_0000;

/// One material bucket of a palette, with its atlas row: per color, base color, (roughness,
/// metallic) and transmission, as bytes. `ior` and `emissive` are bit patterns of `f64` values.
pub struct MaterialData {
    pub ior: u64,
    pub emissive: u64,
    pub volume: Option<Volume>,
    pub atlas_width: u32,
    pub atlas_height: u32,
    pub base_color: Vec<Color>,
    pub metallic_roughness: Vec<(u8, u8)>,
    pub transmission: Vec<u8>,
}

/// The texture tables of a glTF document.
pub struct TextureTables {
    pub samplers: Vec<Sampler>,
    pub images: Vec<Image>,
    pub textures: Vec<Texture>,
}

/// A glTF material as this exporter writes it: texture indices, plus the extensions it uses
/// (`ior` and `emissive_strength` as bit patterns of `f64` values). When `emissive_texture` is
/// present the emissive factor is white.
pub struct MaterialRecord {
    pub base_color_texture: u32,
    pub metallic_roughness_texture: u32,
    pub emissive_texture: Option<u32>,
    pub ior: Option<u64>,
    pub transmission_texture: Option<u32>,
    pub emissive_strength: Option<u64>,
    pub volume: Option<Volume>,
}

/// The material extensions a document uses.
#[derive(Copy, Clone, PartialEq, Eq, Structural, Debug)]
pub struct ExtensionsUsed {
    pub emissive_strength: bool,
    pub ior: bool,
    pub transmission: bool,
    pub volume: bool,
}

/// The sampler every atlas texture uses: nearest texel, clamped to the edge.
pub open spec fn atlas_sampler() -> Sampler {
    Sampler {
        mag_filter: FILTER_NEAREST,
        min_filter: FILTER_NEAREST,
        wrap_s: WRAP_CLAMP_TO_EDGE,
        wrap_t: WRAP_CLAMP_TO_EDGE,
    }
}

/// The RGB bytes of `cs`.
pub open spec fn rgb_bytes(cs: Seq<Color>) -> Seq<u8>
    decreases cs.len(),
{
    if cs.len() == 0 {
        Seq::empty()
    } else {
        rgb_bytes(cs.drop_last()) + seq![cs.last().r, cs.last().g, cs.last().b]
    }
}

/// The RGB bytes of the metallic-roughness texture: 0, roughness, metallic per texel.
pub open spec fn mr_bytes(ms: Seq<(u8, u8)>) -> Seq<u8>
    decreases ms.len(),
{
    if ms.len() == 0 {
        Seq::empty()
    } else {
        mr_bytes(ms.drop_last()) + seq![0u8, ms.last().0, ms.last().1]
    }
}

/// The three bytes of texel `k` of an RGB image: bytes `3k`, `3k + 1` and `3k + 2`.
pub open spec fn rgb_texel(bytes: Seq<u8>, k: int) -> (u8, u8, u8) {
    (bytes[3 * k], bytes[3 * k + 1], bytes[3 * k + 2])
}

/// The metallic-roughness atlas holds three bytes per texel, in texel order: 0, then texel `k`'s
/// roughness (the pair's first byte, glTF's green channel), then its metallic factor (the second
/// byte, glTF's blue channel).
pub proof fn lemma_mr_bytes_channels(ms: Seq<(u8, u8)>)
    ensures
        mr_bytes(ms).len() == 3 * ms.len(),
        forall|k: int| 0 <= k < ms.len() ==> #[trigger] rgb_texel(mr_bytes(ms), k) == (0u8, ms[k].0, ms[k].1),
    decreases ms.len(),
{
    if ms.len() > 0 {
        let d = ms.drop_last();
        lemma_mr_bytes_channels(d);
        let prev = mr_bytes(d);
        let tail = seq![0u8, ms.last().0, ms.last().1];
        assert(mr_bytes(ms) == prev + tail);
        assert forall|k: int| 0 <= k < ms.len() implies #[trigger] rgb_texel(mr_bytes(ms), k) == (
            0u8,
            ms[k].0,
            ms[k].1,
        ) by {
            if k < d.len() {
                assert(ms[k] == d[k]);
                assert(rgb_texel(prev, k) == (0u8, d[k].0, d[k].1));
                assert(mr_bytes(ms)[3 * k] == prev[3 * k]);
                assert(mr_bytes(ms)[3 * k + 1] == prev[3 * k + 1]);
                assert(mr_bytes(ms)[3 * k + 2] == prev[3 * k + 2]);
            } else {
                assert(mr_bytes(ms)[3 * k] == tail[0]);
                assert(mr_bytes(ms)[3 * k + 1] == tail[1]);
                assert(mr_bytes(ms)[3 * k + 2] == tail[2]);
            }
        }
    }
}

/// The base-color atlas holds three bytes per texel, in texel order: the red, green and blue
/// components of texel `k`'s color.
pub proof fn lemma_rgb_bytes_channels(cs: Seq<Color>)
    ensures
        rgb_bytes(cs).len() == 3 * cs.len(),
        forall|k: int| 0 <= k < cs.len() ==> #[trigger] rgb_texel(rgb_bytes(cs), k) == (cs[k].r, cs[k].g, cs[k].b),
    decreases cs.len(),
{
    if cs.len() > 0 {
        let d = cs.drop_last();
        lemma_rgb_bytes_channels(d);
        let prev = rgb_bytes(d);
        let tail = seq![cs.last().r, cs.last().g, cs.last().b];
        assert(rgb_bytes(cs) == prev + tail);
        assert forall|k: int| 0 <= k < cs.len() implies #[trigger] rgb_texel(rgb_bytes(cs), k) == (
            cs[k].r,
            cs[k].g,
            cs[k].b,
        ) by {
            if k < d.len() {
                assert(cs[k] == d[k]);
                assert(rgb_texel(prev, k) == (d[k].r, d[k].g, d[k].b));
                assert(rgb_bytes(cs)[3 * k] == prev[3 * k]);
                assert(rgb_bytes(cs)[3 * k + 1] == prev[3 * k + 1]);
                assert(rgb_bytes(cs)[3 * k + 2] == prev[3 * k + 2]);
            } else {
                assert(rgb_bytes(cs)[3 * k] == tail[0]);
                assert(rgb_bytes(cs)[3 * k + 1] == tail[1]);
                assert(rgb_bytes(cs)[3 * k + 2] == tail[2]);
            }
        }
    }
}

/// Some texel transmits light.
pub open spec fn any_transmission(t: Seq<u8>) -> bool {
    exists|i: int| 0 <= i < t.len() && t[i] != 0
}

/// The buffer after appending each of `blobs` as a 4-byte aligned buffer view.
pub open spec fn bytes_after(bytes: Seq<u8>, blobs: Seq<Seq<u8>>) -> Seq<u8>
    decreases blobs.len(),
{
    if blobs.len() == 0 {
        bytes
    } else {
        padded(bytes_after(bytes, blobs.drop_last()), 0) + blobs.last()
    }
}

/// The buffer views after appending each of `blobs` to `bytes`.
pub open spec fn views_after(bytes: Seq<u8>, views: Seq<BufferView>, blobs: Seq<Seq<u8>>) -> Seq<BufferView>
    decreases blobs.len(),
{
    if blobs.len() == 0 {
        views
    } else {
        views_after(bytes, views, blobs.drop_last()).push(
            view_after(bytes_after(bytes, blobs.drop_last()), blobs.last(), None),
        )
    }
}

/// `tables` and `writer` are `old_tables` and `old_writer` after `push_texture` of each of
/// `blobs` in turn.
pub open spec fn textures_pushed(
    old_tables: TextureTables,
    old_writer: BinWriter,
    tables: TextureTables,
    writer: BinWriter,
    blobs: Seq<Seq<u8>>,
) -> bool {
    let n = blobs.len();
    &&& writer.bytes@ == bytes_after(old_writer.bytes@, blobs)
    &&& writer.buffer_views@ == views_after(old_writer.bytes@, old_writer.buffer_views@, blobs)
    &&& writer.accessors@ == old_writer.accessors@
    &&& tables.samplers@ == if n > 0 && old_tables.samplers@.len() == 0 {
        seq![atlas_sampler()]
    } else {
        old_tables.samplers@
    }
    &&& tables.images@.len() == old_tables.images@.len() + n
    &&& forall|i: int| 0 <= i < old_tables.images@.len() ==> #[trigger] tables.images@[i] == old_tables.images@[i]
    &&& forall|k: int|
        0 <= k < n ==> {
            let img = #[trigger] tables.images@[old_tables.images@.len() + k];
            &&& img.mime_type@ == "image/png"@
            &&& img.buffer_view == (old_writer.buffer_views@.len() + k) as u32
        }
    &&& tables.textures@.len() == old_tables.textures@.len() + n
    &&& forall|i: int| 0 <= i < old_tables.textures@.len() ==> #[trigger] tables.textures@[i] == old_tables.textures@[i]
    &&& forall|k: int|
        0 <= k < n ==> #[trigger] tables.textures@[old_tables.textures@.len() + k] == (Texture {
            sampler: 0,
            source: (old_tables.images@.len() + k) as u32,
        })
}

/// Adds `png` to the buffer as an image and a texture over it, adding the atlas sampler first
/// when the document has none yet; returns the texture's index.
pub fn push_texture(tables: &mut TextureTables, writer: &mut BinWriter, png: Vec<u8>) -> (index: u32)
    ensures
        textures_pushed(*old(tables), *old(writer), *final(tables), *final(writer), seq![png@]),
        index == old(tables).textures@.len() as u32,
{
    if tables.samplers.len() == 0 {
        tables.samplers.push(
            Sampler {
                mag_filter: FILTER_NEAREST,
                min_filter: FILTER_NEAREST,
                wrap_s: WRAP_CLAMP_TO_EDGE,
                wrap_t: WRAP_CLAMP_TO_EDGE,
            },
        );
    }
    let buffer_view = writer.push_view(png.as_slice(), None);
    let image_index = tables.images.len() as u32;
    tables.images.push(Image { mime_type: String::from_str("image/png"), buffer_view });
    let texture_index = tables.textures.len() as u32;
    tables.textures.push(Texture { sampler: 0, source: image_index });
    proof {
        let blobs = seq![png@];
        assert(blobs.drop_last() =~= Seq::<Seq<u8>>::empty());
        assert(tables.samplers@ =~= if old(tables).samplers@.len() == 0 {
            seq![atlas_sampler()]
        } else {
            old(tables).samplers@
        });
        assert(blobs.last() == png@);
        assert(bytes_after(old(writer).bytes@, blobs.drop_last()) == old(writer).bytes@);
        assert(views_after(old(writer).bytes@, old(writer).buffer_views@, blobs.drop_last()) == old(writer).buffer_views@);
        assert(writer.bytes@ == bytes_after(old(writer).bytes@, blobs));
        assert(writer.buffer_views@ == views_after(old(writer).bytes@, old(writer).buffer_views@, blobs));
        assert(tables.images@[old(tables).images@.len() as int].buffer_view == (old(writer).buffer_views@.len() + 0) as u32);
        assert(tables.textures@[old(tables).textures@.len() as int] == (Texture { sampler: 0, source: (old(tables).images@.len() + 0) as u32 }));
    }
    texture_index
}

/// The RGB bytes of `colors`.
fn flatten_rgb(colors: &Vec<Color>) -> (out: Vec<u8>)
    ensures
        out@ == rgb_bytes(colors@),
{
    let mut out: Vec<u8> = Vec::new();
    let mut k: usize = 0;
    while k < colors.len()
        invariant
            k <= colors@.len(),
            out@ == rgb_bytes(colors@.take(k as int)),
        decreases colors@.len() - k,
    {
        let c = colors[k];
        out.push(c.r);
        out.push(c.g);
        out.push(c.b);
        proof {
            assert(colors@.take(k + 1).drop_last() =~= colors@.take(k as int));
            assert(out@ =~= rgb_bytes(colors@.take(k + 1)));
        }
        k = k + 1;
    }
    assert(colors@.take(colors@.len() as int) =~= colors@);
    out
}

/// The metallic-roughness texture bytes of `ms`: 0, roughness, metallic per texel.
fn flatten_mr(ms: &Vec<(u8, u8)>) -> (out: Vec<u8>)
    ensures
        out@ == mr_bytes(ms@),
{
    let mut out: Vec<u8> = Vec::new();
    let mut k: usize = 0;
    while k < ms.len()
        invariant
            k <= ms@.len(),
            out@ == mr_bytes(ms@.take(k as int)),
        decreases ms@.len() - k,
    {
        let (roughness, metallic) = ms[k];
        out.push(0);
        out.push(roughness);
        out.push(metallic);
        proof {
            assert(ms@.take(k + 1).drop_last() =~= ms@.take(k as int));
            assert(out@ =~= mr_bytes(ms@.take(k + 1)));
        }
        k = k + 1;
    }
    assert(ms@.take(ms@.len() as int) =~= ms@);
    out
}

proof fn lemma_rgb_len(cs: Seq<Color>)
    ensures
        rgb_bytes(cs).len() == 3 * cs.len(),
    decreases cs.len(),
{
    if cs.len() > 0 {
        lemma_rgb_len(cs.drop_last());
    }
}

proof fn lemma_mr_len(ms: Seq<(u8, u8)>)
    ensures
        mr_bytes(ms).len() == 3 * ms.len(),
    decreases ms.len(),
{
    if ms.len() > 0 {
        lemma_mr_len(ms.drop_last());
    }
}

proof fn lemma_pushed_twice(
    t0: TextureTables,
    w0: BinWriter,
    t1: TextureTables,
    w1: BinWriter,
    t2: TextureTables,
    w2: BinWriter,
    blobs: Seq<Seq<u8>>,
    more: Seq<u8>,
)
    requires
        textures_pushed(t0, w0, t1, w1, blobs),
        textures_pushed(t1, w1, t2, w2, seq![more]),
        blobs.len() > 0,
    ensures
        textures_pushed(t0, w0, t2, w2, blobs.push(more)),
{
    let all = blobs.push(more);
    assert(all.drop_last() =~= blobs);
    assert(seq![more].drop_last() =~= Seq::<Seq<u8>>::empty());
    assert(bytes_after(w1.bytes@, seq![more].drop_last()) == w1.bytes@);
    assert(views_after(w1.bytes@, w1.buffer_views@, seq![more].drop_last()) == w1.buffer_views@);
    assert(w2.bytes@ == bytes_after(w0.bytes@, all));
    assert(w2.buffer_views@ == views_after(w0.bytes@, w0.buffer_views@, all));
    assert(t1.samplers@.len() > 0);
    assert(t2.samplers@ == t1.samplers@);
    assert(w1.buffer_views@.len() == w0.buffer_views@.len() + blobs.len()) by {
        lemma_views_after_len(w0.bytes@, w0.buffer_views@, blobs);
    }
    assert forall|k: int| 0 <= k < all.len() implies {
        let img = #[trigger] t2.images@[t0.images@.len() + k];
        &&& img.mime_type@ == "image/png"@
        &&& img.buffer_view == (w0.buffer_views@.len() + k) as u32
    } by {
        if k < blobs.len() {
            assert(t2.images@[t0.images@.len() + k] == t1.images@[t0.images@.len() + k]);
        } else {
            assert(t0.images@.len() + k == t1.images@.len() + 0);
        }
    }
    assert forall|k: int| 0 <= k < all.len() implies #[trigger] t2.textures@[t0.textures@.len() + k] == (Texture {
        sampler: 0,
        source: (t0.images@.len() + k) as u32,
    }) by {
        if k < blobs.len() {
            assert(t2.textures@[t0.textures@.len() + k] == t1.textures@[t0.textures@.len() + k]);
        } else {
            assert(t0.textures@.len() + k == t1.textures@.len() + 0);
        }
    }
}

proof fn lemma_views_after_len(bytes: Seq<u8>, views: Seq<BufferView>, blobs: Seq<Seq<u8>>)
    ensures
        views_after(bytes, views, blobs).len() == views.len() + blobs.len(),
    decreases blobs.len(),
{
    if blobs.len() > 0 {
        lemma_views_after_len(bytes, views, blobs.drop_last());
    }
}

/// The atlas images that `build_material` encodes for `m`, in the order it adds them: base
/// color, metallic-roughness, then transmission when some texel transmits.
pub open spec fn material_images(m: MaterialData) -> Seq<Seq<u8>> {
    let w = m.atlas_width;
    let h = m.atlas_height;
    let base = seq![
        png_encoding(w, h, PngColorType::Rgb, rgb_bytes(m.base_color@)),
        png_encoding(w, h, PngColorType::Rgb, mr_bytes(m.metallic_roughness@)),
    ];
    if any_transmission(m.transmission@) {
        base.push(png_encoding(w, h, PngColorType::Grayscale, m.transmission@))
    } else {
        base
    }
}

/// The atlas row of `m` is a `width` x `height` image with one entry per texel.
pub open spec fn material_data_ok(m: MaterialData) -> bool {
    &&& m.atlas_width > 0
    &&& m.atlas_height > 0
    &&& m.base_color@.len() == m.atlas_width * m.atlas_height
    &&& m.metallic_roughness@.len() == m.atlas_width * m.atlas_height
    &&& m.transmission@.len() == m.atlas_width * m.atlas_height
    &&& 3 * m.base_color@.len() <= usize::MAX
}

/// Adds the material of bucket `material` to the document: its base-color and metallic-roughness
/// atlas textures (and its transmission texture when some texel transmits), then a material with
/// the `KHR_materials_ior` extension when its ior differs from 1.5, `KHR_materials_transmission`
/// with the transmission texture, `KHR_materials_emissive_strength` (and the base-color texture as
/// emissive texture) when its emissive strength is not zero, and `KHR_materials_volume` when it
/// has a volume. Records the extensions used; returns the material's index.
pub fn build_material(
    material: &MaterialData,
    tables: &mut TextureTables,
    materials: &mut Vec<MaterialRecord>,
    writer: &mut BinWriter,
    extensions_used: &mut ExtensionsUsed,
) -> (index: u32)
    requires
        material_data_ok(*material),
    ensures
        textures_pushed(*old(tables), *old(writer), *final(tables), *final(writer), material_images(*material)),
        index == old(materials)@.len() as u32,
        final(materials)@.len() == old(materials)@.len() + 1,
        forall|i: int| 0 <= i < old(materials)@.len() ==> #[trigger] final(materials)@[i] == old(materials)@[i],
        ({
            let r = final(materials)@.last();
            let t = old(tables).textures@.len();
            &&& r.base_color_texture == t as u32
            &&& r.metallic_roughness_texture == (t + 1) as u32
            &&& r.transmission_texture == if any_transmission(material.transmission@) {
                Some((t + 2) as u32)
            } else {
                None
            }
            &&& r.ior == if material.ior != DEFAULT_IOR_BITS {
                Some(material.ior)
            } else {
                None
            }
            &&& r.emissive_strength == if !is_zero_bits(material.emissive) {
                Some(material.emissive)
            } else {
                None
            }
            &&& r.emissive_texture == if !is_zero_bits(material.emissive) {
                Some(t as u32)
            } else {
                None
            }
            &&& r.volume == material.volume
        }),
        *final(extensions_used) == (ExtensionsUsed {
            emissive_strength: old(extensions_used).emissive_strength || !is_zero_bits(material.emissive),
            ior: old(extensions_used).ior || material.ior != DEFAULT_IOR_BITS,
            transmission: old(extensions_used).transmission || any_transmission(material.transmission@),
            volume: old(extensions_used).volume || material.volume is Some,
        }),
{
    let w = material.atlas_width;
    let h = material.atlas_height;
    let ghost t0 = *tables;
    let ghost w0 = *writer;
    let base_bytes = flatten_rgb(&material.base_color);
    let mr = flatten_mr(&material.metallic_roughness);
    proof {
        lemma_rgb_len(material.base_color@);
        lemma_mr_len(material.metallic_roughness@);
    }
    let base_png = encode_png(w, h, base_bytes.as_slice(), PngColorType::Rgb);
    let base_texture = push_texture(tables, writer, base_png);
    let ghost t1 = *tables;
    let ghost w1 = *writer;
    let mr_png = encode_png(w, h, mr.as_slice(), PngColorType::Rgb);
    let mr_texture = push_texture(tables, writer, mr_png);
    proof {
        lemma_pushed_twice(t0, w0, t1, w1, *tables, *writer, seq![base_png@], mr_png@);
        assert(seq![base_png@].push(mr_png@) =~= seq![base_png@, mr_png@]);
    }
    let ior = if material.ior != DEFAULT_IOR_BITS {
        extensions_used.ior = true;
        Some(material.ior)
    } else {
        None
    };
    let mut any = false;
    let mut k: usize = 0;
    while k < material.transmission.len()
        invariant
            k <= material.transmission@.len(),
            any == exists|i: int| 0 <= i < k && material.transmission@[i] != 0,
        decreases material.transmission@.len() - k,
    {
        if material.transmission[k] != 0 {
            any = true;
        }
        k = k + 1;
    }
    let transmission_texture = if any {
        let ghost t2 = *tables;
        let ghost w2 = *writer;
        let tr_png = encode_png(w, h, material.transmission.as_slice(), PngColorType::Grayscale);
        let tr = push_texture(tables, writer, tr_png);
        proof {
            lemma_pushed_twice(t0, w0, t2, w2, *tables, *writer, seq![base_png@, mr_png@], tr_png@);
        }
        extensions_used.transmission = true;
        Some(tr)
    } else {
        None
    };
    let e = material.emissive;
    let emissive = !(e == 0 || e == 0x8000_0000_0000_0000);
    let (emissive_strength, emissive_texture) = if emissive {
        extensions_used.emissive_strength = true;
        (Some(e), Some(base_texture))
    } else {
        (None, None)
    };
    if material.volume.is_some() {
        extensions_used.volume = true;
    }
    let index = materials.len() as u32;
    materials.push(
        MaterialRecord {
            base_color_texture: base_texture,
            metallic_roughness_texture: mr_texture,
            emissive_texture,
            ior,
            transmission_texture,
            emissive_strength,
            volume: material.volume,
        },
    );
    index
}

/// `name` when `on`, nothing otherwise.
pub open spec fn name_if(on: bool, name: Seq<char>) -> Seq<Seq<char>> {
    if on {
        seq![name]
    } else {
        Seq::empty()
    }
}

/// The names of the extensions `used` marks, in alphabetical order.
pub open spec fn extension_name_list(used: ExtensionsUsed) -> Seq<Seq<char>> {
    name_if(used.emissive_strength, "KHR_materials_emissive_strength"@) + name_if(used.ior, "KHR_materials_ior"@)
        + name_if(used.transmission, "KHR_materials_transmission"@) + name_if(used.volume, "KHR_materials_volume"@)
}

/// The document's `extensionsUsed` list: the names of the extensions `used` marks, in
/// alphabetical order.
pub fn extension_names(used: ExtensionsUsed) -> (names: Vec<String>)
    ensures
        names@.map_values(|s: String| s@) == extension_name_list(used),
{
    let mut names: Vec<String> = Vec::new();
    let ghost mut expected: Seq<Seq<char>> = Seq::empty();
    if used.emissive_strength {
        names.push(String::from_str("KHR_materials_emissive_strength"));
    }
    proof {
        expected = name_if(used.emissive_strength, "KHR_materials_emissive_strength"@);
        assert(names@.map_values(|s: String| s@) =~= expected);
    }
    if used.ior {
        names.push(String::from_str("KHR_materials_ior"));
    }
    proof {
        expected = expected + name_if(used.ior, "KHR_materials_ior"@);
        assert(names@.map_values(|s: String| s@) =~= expected);
    }
    if used.transmission {
        names.push(String::from_str("KHR_materials_transmission"));
    }
    proof {
        expected = expected + name_if(used.transmission, "KHR_materials_transmission"@);
        assert(names@.map_values(|s: String| s@) =~= expected);
    }
    if used.volume {
        names.push(String::from_str("KHR_materials_volume"));
    }
    proof {
        expected = expected + name_if(used.volume, "KHR_materials_volume"@);
        assert(names@.map_values(|s: String| s@) =~= expected);
    }
    names
}

} // verus!
