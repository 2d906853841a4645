//! Decoding a material's embedded PNG textures, and nearest-texel lookup clamped to the edge.
use vstd::prelude::*;

use crate::gltf::{BufferView, Image};
use crate::png_io::{decode_png, png_decoding, PngColorType, PngFailure};

verus! {

/// Why a texture could not be decoded.
#[derive(Copy, Clone, PartialEq, Eq, Structural, Debug)]
pub enum TextureError {
    /// No texture at this index.
    TextureOutOfRange { index: u32 },
    /// The texture's image index is out of range.
    ImageOutOfRange { index: u32 },
    /// The image's buffer view index is out of range.
    ViewOutOfRange { index: u32 },
    /// The image's buffer view reaches past the end of the binary buffer.
    ViewOutOfBounds,
    /// The image bytes are not a PNG image that can be decoded.
    Png(PngFailure),
    /// The image decodes to a layout other than grayscale, RGB or RGBA.
    UnsupportedColor(PngColorType),
}

/// A decoded texture: `components` bytes per texel, row by row.
#[derive(Debug)]
pub struct Texture {
    pub width: u32,
    pub height: u32,
    pub components: usize,
    pub pixels: Vec<u8>,
}

/// Bytes per texel of a decoded image of layout `c`, for the layouts textures may have.
pub open spec fn components_of(c: PngColorType) -> Option<usize> {
    match c {
        PngColorType::Grayscale => Some(1usize),
        PngColorType::Rgb => Some(3usize),
        PngColorType::Rgba => Some(4usize),
        _ => None,
    }
}

/// `s` cut to its first `n` elements, or `s` itself when it is not longer.
pub open spec fn truncated(s: Seq<u8>, n: int) -> Seq<u8> {
    if n < s.len() {
        s.take(n)
    } else {
        s
    }
}

/// The encoded image bytes of texture `index`: texture, then image, then buffer view, then the
/// view's range of `bin`.
pub open spec fn image_bytes(
    textures: Seq<crate::gltf::Texture>,
    images: Seq<Image>,
    views: Seq<BufferView>,
    bin: Seq<u8>,
    index: u32,
) -> Result<Seq<u8>, TextureError> {
    if index >= textures.len() {
        Err(TextureError::TextureOutOfRange { index })
    } else {
        let source = textures[index as int].source;
        if source >= images.len() {
            Err(TextureError::ImageOutOfRange { index: source })
        } else {
            let view_index = images[source as int].buffer_view;
            if view_index >= views.len() {
                Err(TextureError::ViewOutOfRange { index: view_index })
            } else {
                let view = views[view_index as int];
                let start = view.byte_offset as int;
                let end = start + view.byte_length;
                if end > bin.len() {
                    Err(TextureError::ViewOutOfBounds)
                } else {
                    Ok(bin.subrange(start, end))
                }
            }
        }
    }
}

impl Texture {
    /// The texel bytes.
    pub open spec fn texels(&self) -> Seq<u8> {
        self.pixels@
    }

    /// Non-empty, with a supported texel size and exactly one texel per pixel.
    pub open spec fn wf(&self) -> bool {
        &&& self.width > 0
        &&& self.height > 0
        &&& (self.components == 1 || self.components == 3 || self.components == 4)
        &&& self.texels().len() == self.width * self.height * self.components
    }

    /// Whether the texture is well formed (see `wf`), as a run-time test.
    pub fn is_well_formed(&self) -> (b: bool)
        ensures
            b == self.wf(),
    {
        if self.width == 0 || self.height == 0 {
            return false;
        }
        if !(self.components == 1 || self.components == 3 || self.components == 4) {
            return false;
        }
        let len = self.pixels.len();
        let w = self.width as u64;
        let h = self.height as u64;
        let c = self.components as u64;
        assert(w * h <= 0xffff_ffff * 0xffff_ffffu64) by (nonlinear_arith)
            requires
                w <= 0xffff_ffff,
                h <= 0xffff_ffff,
        ;
        let wh = w * h;
        assert(wh * c == self.width * self.height * self.components) by (nonlinear_arith)
            requires
                wh == w * h,
                w == self.width,
                h == self.height,
                c == self.components,
        ;
        match wh.checked_mul(c) {
            Some(n) => n == len as u64,
            None => false,
        }
    }

    /// The texel at column `x` and row `y`, each clamped to the texture's edge: its
    /// `components` bytes.
    pub fn texel_clamped(&self, x: i64, y: i64) -> (t: &[u8])
        requires
            self.wf(),
        ensures
            t@ == self.texels().subrange(
                texel_start(self.width, self.components, clamp_index(x, self.width), clamp_index(y, self.height)),
                texel_start(self.width, self.components, clamp_index(x, self.width), clamp_index(y, self.height))
                    + self.components,
            ),
    {
        let len = self.pixels.len();
        let cx = clamp_to(x, self.width);
        let cy = clamp_to(y, self.height);
        let w = self.width as usize;
        let c = self.components;
        proof {
            let hh = self.height as int;
            let ww = self.width as int;
            let cc = c as int;
            assert((cy as int) * ww + (cx as int) + 1 <= hh * ww) by (nonlinear_arith)
                requires
                    0 <= cy < hh,
                    0 <= cx < ww,
            ;
            assert(((cy as int) * ww + (cx as int)) * cc + cc <= hh * ww * cc) by (nonlinear_arith)
                requires
                    (cy as int) * ww + (cx as int) + 1 <= hh * ww,
                    cc >= 0,
            ;
            assert(hh * ww * cc == ww * hh * cc) by (nonlinear_arith);
            assert(hh * ww <= hh * ww * cc) by (nonlinear_arith)
                requires
                    cc >= 1,
                    hh * ww >= 0,
            ;
            assert((cy as int) * ww <= (cy as int) * ww + (cx as int));
            assert(0 <= (cy as int) * ww + (cx as int)) by (nonlinear_arith)
                requires
                    0 <= cy,
                    0 <= cx,
                    0 <= ww,
            ;
            assert(0 <= ((cy as int) * ww + (cx as int)) * cc) by (nonlinear_arith)
                requires
                    0 <= (cy as int) * ww + (cx as int),
                    0 <= cc,
            ;
        }
        let start = (cy as usize * w + cx as usize) * c;
        &self.pixels.as_slice()[start..start + c]
    }
}

/// `v` clamped to `0 ..= size - 1`.
pub open spec fn clamp_index(v: i64, size: u32) -> int {
    if v < 0 {
        0
    } else if v > size - 1 {
        size - 1
    } else {
        v as int
    }
}

/// Where the texel at column `x`, row `y` starts, for a texture `width` texels wide of
/// `components` bytes each.
pub open spec fn texel_start(width: u32, components: usize, x: int, y: int) -> int {
    (y * width + x) * components
}

fn clamp_to(v: i64, size: u32) -> (r: u32)
    requires
        size > 0,
    ensures
        r == clamp_index(v, size),
        r < size,
{
    let last = size - 1;
    if v < 0 {
        0
    } else if v > last as i64 {
        last
    } else {
        v as u32
    }
}

/// The texture that `decode_texture` makes of a PNG decoding outcome `decoded`.
pub open spec fn texture_of_decoding(
    decoded: Result<(u32, u32, PngColorType, Seq<u8>), PngFailure>,
) -> Result<(u32, u32, usize, Seq<u8>), TextureError> {
    match decoded {
        Err(f) => Err(TextureError::Png(f)),
        Ok((w, h, color, px)) => match components_of(color) {
            None => Err(TextureError::UnsupportedColor(color)),
            Some(c) => Ok((w, h, c, truncated(px, w * h * c))),
        },
    }
}

/// How texture `index` decodes: its image bytes looked up, then decoded as PNG.
pub open spec fn texture_decoding(
    textures: Seq<crate::gltf::Texture>,
    images: Seq<Image>,
    views: Seq<BufferView>,
    bin: Seq<u8>,
    index: u32,
) -> Result<(u32, u32, usize, Seq<u8>), TextureError> {
    match image_bytes(textures, images, views, bin, index) {
        Err(e) => Err(e),
        Ok(bytes) => texture_of_decoding(png_decoding(bytes)),
    }
}

/// Whether `r` is the texture, or the error, that `expected` describes.
pub open spec fn texture_result_is(
    r: Result<Texture, TextureError>,
    expected: Result<(u32, u32, usize, Seq<u8>), TextureError>,
) -> bool {
    match (r, expected) {
        (Ok(t), Ok((w, h, c, px))) => t.width == w && t.height == h && t.components == c && t.texels() == px,
        (Err(e), Err(f)) => e == f,
        _ => false,
    }
}

/// Builds a texture from a decoded image: the texel size its layout implies, and the decoder's
/// buffer cut to one texel per pixel.
pub fn texture_from_decoded(decoded: Result<crate::png_io::DecodedPng, PngFailure>) -> (r: Result<
    Texture,
    TextureError,
>)
    ensures
        texture_result_is(
            r,
            texture_of_decoding(
                match decoded {
                    Ok(d) => Ok((d.width, d.height, d.color, d.pixels@)),
                    Err(f) => Err(f),
                },
            ),
        ),
{
    match decoded {
        Err(f) => Err(TextureError::Png(f)),
        Ok(d) => {
            let components: usize = match d.color {
                PngColorType::Grayscale => 1,
                PngColorType::Rgb => 3,
                PngColorType::Rgba => 4,
                other => {
                    return Err(TextureError::UnsupportedColor(other));
                },
            };
            let mut pixels = d.pixels;
            let ghost px = pixels@;
            let len = pixels.len();
            let w = d.width as usize;
            let h = d.height as usize;
            let ghost n_spec: int = d.width * d.height * components;
            match w.checked_mul(h) {
                Some(wh) => {
                    assert(wh * components == n_spec);
                    match wh.checked_mul(components) {
                        Some(n) => {
                            if n < len {
                                pixels.truncate(n);
                                assert(pixels@ =~= px.take(n as int));
                            }
                        },
                        None => {},
                    }
                },
                None => {
                    assert(w * h * components >= w * h) by (nonlinear_arith)
                        requires
                            components >= 1,
                            w * h >= 0,
                    ;
                },
            }
            assert(pixels@ == truncated(px, n_spec));
            Ok(Texture { width: d.width, height: d.height, components, pixels })
        },
    }
}

/// Decodes texture `index` of a document whose texture, image and buffer view tables are
/// `textures`, `images` and `views`, with binary buffer `bin`.
pub fn decode_texture(
    textures: &Vec<crate::gltf::Texture>,
    images: &Vec<Image>,
    views: &Vec<BufferView>,
    bin: &[u8],
    index: u32,
) -> (r: Result<Texture, TextureError>)
    ensures
        texture_result_is(r, texture_decoding(textures@, images@, views@, bin@, index)),
{
    if index as usize >= textures.len() {
        return Err(TextureError::TextureOutOfRange { index });
    }
    let source = textures[index as usize].source;
    if source as usize >= images.len() {
        return Err(TextureError::ImageOutOfRange { index: source });
    }
    let view_index = images[source as usize].buffer_view;
    if view_index as usize >= views.len() {
        return Err(TextureError::ViewOutOfRange { index: view_index });
    }
    let view = views[view_index as usize];
    let start = view.byte_offset as u64;
    let end = start + view.byte_length as u64;
    if end > bin.len() as u64 {
        return Err(TextureError::ViewOutOfBounds);
    }
    let bytes = &bin[start as usize..end as usize];
    texture_from_decoded(decode_png(bytes))
}

/// The texture references of a material: base color and metallic-roughness (both needed to
/// shade it) and, for transmissive materials, transmission.
#[derive(Copy, Clone, PartialEq, Eq, Structural, Debug)]
pub struct MaterialTextures {
    pub base_color: Option<u32>,
    pub metallic_roughness: Option<u32>,
    pub transmission: Option<u32>,
}

/// Why a material's textures could not be decoded.
#[derive(Copy, Clone, PartialEq, Eq, Structural, Debug)]
pub enum MaterialError {
    /// No material at this index.
    MaterialOutOfRange { index: u32 },
    /// The material has no base color texture.
    NoBaseColor,
    /// The material has no metallic-roughness texture.
    NoMetallicRoughness,
    /// One of its textures could not be decoded.
    Texture(TextureError),
}

/// A material's decoded textures.
#[derive(Debug)]
pub struct DecodedTextures {
    pub base_color: Texture,
    pub metallic_roughness: Texture,
    pub transmission: Option<Texture>,
}

/// What decoding material `index` gives: the material looked up, its base color and
/// metallic-roughness references checked, then its transmission texture decoded (when it has
/// one), then its base color texture, then its metallic-roughness texture; the first failure is
/// the answer.
pub open spec fn material_decoding_error(
    materials: Seq<MaterialTextures>,
    textures: Seq<crate::gltf::Texture>,
    images: Seq<Image>,
    views: Seq<BufferView>,
    bin: Seq<u8>,
    index: u32,
) -> Option<MaterialError> {
    if index >= materials.len() {
        Some(MaterialError::MaterialOutOfRange { index })
    } else {
        let m = materials[index as int];
        if m.base_color is None {
            Some(MaterialError::NoBaseColor)
        } else if m.metallic_roughness is None {
            Some(MaterialError::NoMetallicRoughness)
        } else if m.transmission matches Some(t) && texture_decoding(textures, images, views, bin, t) is Err {
            Some(MaterialError::Texture(texture_decoding(textures, images, views, bin, m.transmission->0)->Err_0))
        } else if texture_decoding(textures, images, views, bin, m.base_color->0) is Err {
            Some(MaterialError::Texture(texture_decoding(textures, images, views, bin, m.base_color->0)->Err_0))
        } else if texture_decoding(textures, images, views, bin, m.metallic_roughness->0) is Err {
            Some(
                MaterialError::Texture(
                    texture_decoding(textures, images, views, bin, m.metallic_roughness->0)->Err_0,
                ),
            )
        } else {
            None
        }
    }
}

/// Decodes the textures of material `index`, whose texture references are `materials[index]`.
pub fn decode_material_textures(
    materials: &Vec<MaterialTextures>,
    textures: &Vec<crate::gltf::Texture>,
    images: &Vec<Image>,
    views: &Vec<BufferView>,
    bin: &[u8],
    index: u32,
) -> (r: Result<DecodedTextures, MaterialError>)
    ensures
        match material_decoding_error(materials@, textures@, images@, views@, bin@, index) {
            Some(e) => r == Err::<DecodedTextures, _>(e),
            None => r matches Ok(d) && {
                let m = materials@[index as int];
                &&& texture_result_is(
                    Ok(d.base_color),
                    texture_decoding(textures@, images@, views@, bin@, m.base_color->0),
                )
                &&& texture_result_is(
                    Ok(d.metallic_roughness),
                    texture_decoding(textures@, images@, views@, bin@, m.metallic_roughness->0),
                )
                &&& match m.transmission {
                    Some(t) => d.transmission matches Some(tt) && texture_result_is(
                        Ok(tt),
                        texture_decoding(textures@, images@, views@, bin@, t),
                    ),
                    None => d.transmission is None,
                }
            },
        },
{
    if index as usize >= materials.len() {
        return Err(MaterialError::MaterialOutOfRange { index });
    }
    let m = materials[index as usize];
    let base_index = match m.base_color {
        Some(i) => i,
        None => return Err(MaterialError::NoBaseColor),
    };
    let mr_index = match m.metallic_roughness {
        Some(i) => i,
        None => return Err(MaterialError::NoMetallicRoughness),
    };
    let transmission = match m.transmission {
        Some(t) => match decode_texture(textures, images, views, bin, t) {
            Ok(tex) => Some(tex),
            Err(e) => return Err(MaterialError::Texture(e)),
        },
        None => None,
    };
    let base_color = match decode_texture(textures, images, views, bin, base_index) {
        Ok(tex) => tex,
        Err(e) => return Err(MaterialError::Texture(e)),
    };
    let metallic_roughness = match decode_texture(textures, images, views, bin, mr_index) {
        Ok(tex) => tex,
        Err(e) => return Err(MaterialError::Texture(e)),
    };
    Ok(DecodedTextures { base_color, metallic_roughness, transmission })
}

} // verus!
