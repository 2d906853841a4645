//! PNG encoding and decoding through the `png` crate.
use vstd::prelude::*;

verus! {

/// The pixel layouts of 8-bit PNG images.
#[derive(Copy, Clone, PartialEq, Eq, Structural, Debug)]
pub enum PngColorType {
    Grayscale,
    Rgb,
    Indexed,
    GrayscaleAlpha,
    Rgba,
}

/// Why a PNG image could not be decoded.
#[derive(Copy, Clone, PartialEq, Eq, Structural, Debug)]
pub enum PngFailure {
    /// The header is not that of a valid PNG image.
    InvalidHeader,
    /// The decoded image would not fit in memory.
    TooLarge,
    /// The image data could not be decoded.
    DecodeFailed,
}

/// A decoded image: its size, layout and the decoder's output buffer.
pub struct DecodedPng {
    pub width: u32,
    pub height: u32,
    pub color: PngColorType,
    pub pixels: Vec<u8>,
}

/// Bytes per pixel of an 8-bit image of layout `c` (as the encoder is used here).
pub open spec fn channels(c: PngColorType) -> int {
    match c {
        PngColorType::Grayscale => 1,
        PngColorType::Rgb => 3,
        PngColorType::Indexed => 1,
        PngColorType::GrayscaleAlpha => 2,
        PngColorType::Rgba => 4,
    }
}

/// The PNG file that `png::Encoder` writes for an 8-bit image of `width` x `height` pixels of
/// layout `color`, given row by row in `pixels`.
pub uninterp spec fn png_encoding(width: u32, height: u32, color: PngColorType, pixels: Seq<u8>) -> Seq<u8>;

/// What `png::Decoder` makes of `bytes`: width, height, output layout and output buffer, or why
/// it failed.
pub uninterp spec fn png_decoding(bytes: Seq<u8>) -> Result<(u32, u32, PngColorType, Seq<u8>), PngFailure>;

/// Encodes an 8-bit image as PNG with `png::Encoder` (header, image data, end chunk) into memory.
/// The contract claims that the encoder returns (its `expect`s then never fire) for non-zero
/// dimensions, a non-indexed layout and a pixel buffer of exactly `width * height` pixels, and
/// names the bytes it writes; what those bytes are is not restated here.
#[verifier::external_body]
pub fn encode_png(width: u32, height: u32, pixels: &[u8], color: PngColorType) -> (out: Vec<u8>)
    requires
        width > 0,
        height > 0,
        color != PngColorType::Indexed,
        pixels@.len() == width * height * channels(color),
    ensures
        out@ == png_encoding(width, height, color, pixels@),
{
    let png_color = match color {
        PngColorType::Grayscale => png::ColorType::Grayscale,
        PngColorType::Rgb => png::ColorType::Rgb,
        PngColorType::Indexed => png::ColorType::Indexed,
        PngColorType::GrayscaleAlpha => png::ColorType::GrayscaleAlpha,
        PngColorType::Rgba => png::ColorType::Rgba,
    };
    let mut bytes = Vec::new();
    let mut encoder = png::Encoder::new(&mut bytes, width, height);
    encoder.set_color(png_color);
    encoder.set_depth(png::BitDepth::Eight);
    let mut writer = encoder.write_header().expect("valid dimensions, color type and depth");
    writer.write_image_data(pixels).expect("the pixel buffer matches the declared size");
    writer.finish().expect("writing to memory does not fail");
    bytes
}

/// Decodes `bytes` with `png::Decoder`: reads the header, sizes the output buffer and decodes the
/// first frame into it. The contract names the outcome; it depends on `bytes` alone.
#[verifier::external_body]
pub(crate) fn decode_png(bytes: &[u8]) -> (r: Result<DecodedPng, PngFailure>)
    ensures
        match r {
            Ok(d) => png_decoding(bytes@) == Ok::<_, PngFailure>((d.width, d.height, d.color, d.pixels@)),
            Err(e) => png_decoding(bytes@) == Err::<(u32, u32, PngColorType, Seq<u8>), _>(e),
        },
{
    let mut reader = match png::Decoder::new(std::io::Cursor::new(bytes)).read_info() {
        Ok(r) => r,
        Err(_) => return Err(PngFailure::InvalidHeader),
    };
    let Some(size) = reader.output_buffer_size() else { return Err(PngFailure::TooLarge) };
    let mut pixels = vec![0; size];
    let Ok(info) = reader.next_frame(&mut pixels) else { return Err(PngFailure::DecodeFailed) };
    let color = match info.color_type {
        png::ColorType::Grayscale => PngColorType::Grayscale,
        png::ColorType::Rgb => PngColorType::Rgb,
        png::ColorType::Indexed => PngColorType::Indexed,
        png::ColorType::GrayscaleAlpha => PngColorType::GrayscaleAlpha,
        png::ColorType::Rgba => PngColorType::Rgba,
    };
    Ok(DecodedPng { width: info.width, height: info.height, color, pixels })
}

} // verus!
