//! Human-readable text: decimal numbers, error messages, render output listings and file names.
use vstd::prelude::*;

use crate::bytes::{le32, push_le32};
use crate::container::{ChunkKind, GlbError};
use crate::png_io::{PngColorType, PngFailure};
use crate::angles::CameraAngleError;
use crate::texture::{MaterialError, TextureError};

verus! {

/// The character of decimal digit `d`.
pub open spec fn digit_char(d: int) -> char {
    if d == 0 {
        '0'
    } else if d == 1 {
        '1'
    } else if d == 2 {
        '2'
    } else if d == 3 {
        '3'
    } else if d == 4 {
        '4'
    } else if d == 5 {
        '5'
    } else if d == 6 {
        '6'
    } else if d == 7 {
        '7'
    } else if d == 8 {
        '8'
    } else {
        '9'
    }
}

/// The decimal digits of `n`, most significant first, without leading zeros.
pub open spec fn decimal(n: nat) -> Seq<char>
    decreases n,
{
    if n < 10 {
        seq![digit_char(n as int)]
    } else {
        decimal(n / 10).push(digit_char((n % 10) as int))
    }
}

fn digit_str(d: u64) -> (s: &'static str)
    requires
        d < 10,
    ensures
        s@ == seq![digit_char(d as int)],
{
    proof {
        reveal_strlit("0");
        reveal_strlit("1");
        reveal_strlit("2");
        reveal_strlit("3");
        reveal_strlit("4");
        reveal_strlit("5");
        reveal_strlit("6");
        reveal_strlit("7");
        reveal_strlit("8");
        reveal_strlit("9");
    }
    if d == 0 {
        "0"
    } else if d == 1 {
        "1"
    } else if d == 2 {
        "2"
    } else if d == 3 {
        "3"
    } else if d == 4 {
        "4"
    } else if d == 5 {
        "5"
    } else if d == 6 {
        "6"
    } else if d == 7 {
        "7"
    } else if d == 8 {
        "8"
    } else {
        "9"
    }
}

/// Appends the decimal digits of `n` to `s`.
pub fn push_decimal(s: &mut String, n: u64)
    ensures
        final(s)@ == old(s)@ + decimal(n as nat),
    decreases n,
{
    if n >= 10 {
        push_decimal(s, n / 10);
    }
    s.append(digit_str(n % 10));
    proof {
        if n >= 10 {
            assert(final(s)@ =~= old(s)@ + decimal(n as nat));
        } else {
            assert(final(s)@ =~= old(s)@ + decimal(n as nat));
        }
    }
}

/// The name of the PNG rendered for the `time_idx`-th time and the `angle_idx`-th angle.
pub open spec fn output_filename_spec(time_idx: nat, angle_idx: nat) -> Seq<char> {
    "t"@ + decimal(time_idx) + "_a"@ + decimal(angle_idx) + ".png"@
}

/// The name of the PNG rendered for the `time_idx`-th time and the `angle_idx`-th angle:
/// `t{time_idx}_a{angle_idx}.png`.
pub fn output_filename(time_idx: u64, angle_idx: u64) -> (s: String)
    ensures
        s@ == output_filename_spec(time_idx as nat, angle_idx as nat),
{
    let mut s = String::from_str("t");
    push_decimal(&mut s, time_idx);
    s.append("_a");
    push_decimal(&mut s, angle_idx);
    s.append(".png");
    s
}

/// `items` one after the other, separated by newlines.
pub open spec fn lines(items: Seq<Seq<char>>) -> Seq<char>
    decreases items.len(),
{
    if items.len() == 0 {
        Seq::empty()
    } else if items.len() == 1 {
        items[0]
    } else {
        lines(items.drop_last()) + "\n"@ + items.last()
    }
}

/// The output of a render: the paths of the PNG files written, ordered by keyframe time, then by
/// camera angle.
pub struct RenderOutput {
    pub files: Vec<String>,
}

impl RenderOutput {
    /// The file paths one after the other, one per line (no newline after the last).
    pub fn __str__(&self) -> (s: String)
        ensures
            s@ == lines(self.files@.map_values(|f: String| f@)),
    {
        let ghost items = self.files@.map_values(|f: String| f@);
        let mut s = String::new();
        let mut k: usize = 0;
        while k < self.files.len()
            invariant
                k <= self.files@.len(),
                items == self.files@.map_values(|f: String| f@),
                s@ == lines(items.take(k as int)),
            decreases self.files@.len() - k,
        {
            if k > 0 {
                s.append("\n");
            }
            s.append(self.files[k].as_str());
            proof {
                let next = items.take(k + 1);
                assert(next.drop_last() =~= items.take(k as int));
                if k == 0 {
                    assert(s@ =~= lines(next));
                } else {
                    assert(s@ =~= lines(next));
                }
            }
            k = k + 1;
        }
        assert(items.take(self.files@.len() as int) =~= items);
        s
    }
}

/// A chunk type's tag as `{:?}` shows it: its four bytes as text, in double quotes, with the
/// NUL that pads `BIN` written `\0`.
pub open spec fn chunk_tag_shown(kind: ChunkKind) -> Seq<char> {
    match kind {
        ChunkKind::Json => "\"JSON\""@,
        ChunkKind::Bin => "\"BIN\\0\""@,
    }
}

/// What `String::from_utf8_lossy` makes of `bytes`: the text they hold as UTF-8, each invalid
/// sequence replaced by U+FFFD.
pub uninterp spec fn utf8_lossy_decoding(bytes: Seq<u8>) -> Seq<char>;

/// `String::from_utf8_lossy`, made an owned string. What it returns is only named
/// (`utf8_lossy_decoding`): it depends on `bytes` alone.
#[verifier::external_body]
fn utf8_lossy(bytes: &[u8]) -> (s: String)
    ensures
        s@ == utf8_lossy_decoding(bytes@),
{
    String::from_utf8_lossy(bytes).into_owned()
}

/// What `{:?}` writes for a string: the string in double quotes, with quotes, backslashes,
/// control characters and characters that do not print escaped.
pub uninterp spec fn debug_quoting(s: Seq<char>) -> Seq<char>;

/// The `Debug` form of `s` (`format!("{s:?}")`). What it returns is only named
/// (`debug_quoting`): it depends on `s` alone.
#[verifier::external_body]
fn debug_quoted(s: &str) -> (q: String)
    ensures
        q@ == debug_quoting(s@),
{
    format!("{s:?}")
}

/// Four type bytes of a chunk, read as a little-endian word `found`, shown as `{:?}` shows the
/// text they hold.
pub open spec fn found_tag_shown(found: u32) -> Seq<char> {
    debug_quoting(utf8_lossy_decoding(le32(found)))
}

/// The message describing `e`.
pub open spec fn glb_error_message(e: GlbError) -> Seq<char> {
    match e {
        GlbError::TooShort { .. } => "not a GLB file: shorter than the 12-byte header"@,
        GlbError::BadMagic => "not a GLB file: missing the 'glTF' magic bytes"@,
        GlbError::UnsupportedVersion { version } => "unsupported glTF container version "@ + decimal(
            version as nat,
        ) + " (only version 2 is supported)"@,
        GlbError::LengthMismatch { declared, actual } => "GLB header declares a total length of "@ + decimal(
            declared as nat,
        ) + " bytes, but the file is "@ + decimal(actual as nat) + " bytes"@,
        GlbError::TruncatedChunkHeader => "truncated GLB chunk header"@,
        GlbError::UnexpectedChunkType { expected, found } => "expected a "@ + chunk_tag_shown(expected)
            + " chunk, found "@ + found_tag_shown(found),
        GlbError::ChunkTooLong => "GLB chunk declares a length longer than the remaining file"@,
    }
}

impl GlbError {
    /// A message describing the error.
    pub fn message(&self) -> (s: String)
        ensures
            s@ == glb_error_message(*self),
    {
        match *self {
            GlbError::TooShort { .. } => String::from_str("not a GLB file: shorter than the 12-byte header"),
            GlbError::BadMagic => String::from_str("not a GLB file: missing the 'glTF' magic bytes"),
            GlbError::UnsupportedVersion { version } => {
                let mut s = String::from_str("unsupported glTF container version ");
                push_decimal(&mut s, version as u64);
                s.append(" (only version 2 is supported)");
                s
            },
            GlbError::LengthMismatch { declared, actual } => {
                let mut s = String::from_str("GLB header declares a total length of ");
                push_decimal(&mut s, declared as u64);
                s.append(" bytes, but the file is ");
                push_decimal(&mut s, actual as u64);
                s.append(" bytes");
                s
            },
            GlbError::TruncatedChunkHeader => String::from_str("truncated GLB chunk header"),
            GlbError::UnexpectedChunkType { expected, found } => {
                let mut s = String::from_str("expected a ");
                match expected {
                    ChunkKind::Json => s.append("\"JSON\""),
                    ChunkKind::Bin => s.append("\"BIN\\0\""),
                }
                s.append(" chunk, found ");
                let mut tag: Vec<u8> = Vec::new();
                push_le32(&mut tag, found);
                assert(tag@ =~= le32(found));
                let text = utf8_lossy(tag.as_slice());
                let shown = debug_quoted(text.as_str());
                s.append(shown.as_str());
                s
            },
            GlbError::ChunkTooLong => String::from_str("GLB chunk declares a length longer than the remaining file"),
        }
    }
}

/// The name of a PNG layout.
pub open spec fn color_type_name(c: PngColorType) -> Seq<char> {
    match c {
        PngColorType::Grayscale => "Grayscale"@,
        PngColorType::Rgb => "Rgb"@,
        PngColorType::Indexed => "Indexed"@,
        PngColorType::GrayscaleAlpha => "GrayscaleAlpha"@,
        PngColorType::Rgba => "Rgba"@,
    }
}

/// The message describing `e`.
pub open spec fn texture_error_message(e: TextureError) -> Seq<char> {
    match e {
        TextureError::TextureOutOfRange { index } => "texture index "@ + decimal(index as nat) + " is out of range"@,
        TextureError::ImageOutOfRange { index } => "image index "@ + decimal(index as nat) + " is out of range"@,
        TextureError::ViewOutOfRange { index } => "bufferView index "@ + decimal(index as nat)
            + " is out of range"@,
        TextureError::ViewOutOfBounds => "image bufferView is out of bounds"@,
        TextureError::Png(PngFailure::InvalidHeader) => "invalid PNG image"@,
        TextureError::Png(PngFailure::TooLarge) => "PNG image is too large to decode"@,
        TextureError::Png(PngFailure::DecodeFailed) => "failed to decode PNG image"@,
        TextureError::UnsupportedColor(c) => "unsupported PNG color type "@ + color_type_name(c),
    }
}

impl TextureError {
    /// A message describing the error.
    pub fn message(&self) -> (s: String)
        ensures
            s@ == texture_error_message(*self),
    {
        match *self {
            TextureError::TextureOutOfRange { index } => {
                let mut s = String::from_str("texture index ");
                push_decimal(&mut s, index as u64);
                s.append(" is out of range");
                s
            },
            TextureError::ImageOutOfRange { index } => {
                let mut s = String::from_str("image index ");
                push_decimal(&mut s, index as u64);
                s.append(" is out of range");
                s
            },
            TextureError::ViewOutOfRange { index } => {
                let mut s = String::from_str("bufferView index ");
                push_decimal(&mut s, index as u64);
                s.append(" is out of range");
                s
            },
            TextureError::ViewOutOfBounds => String::from_str("image bufferView is out of bounds"),
            TextureError::Png(PngFailure::InvalidHeader) => String::from_str("invalid PNG image"),
            TextureError::Png(PngFailure::TooLarge) => String::from_str("PNG image is too large to decode"),
            TextureError::Png(PngFailure::DecodeFailed) => String::from_str("failed to decode PNG image"),
            TextureError::UnsupportedColor(c) => {
                let mut s = String::from_str("unsupported PNG color type ");
                match c {
                    PngColorType::Grayscale => s.append("Grayscale"),
                    PngColorType::Rgb => s.append("Rgb"),
                    PngColorType::Indexed => s.append("Indexed"),
                    PngColorType::GrayscaleAlpha => s.append("GrayscaleAlpha"),
                    PngColorType::Rgba => s.append("Rgba"),
                }
                s
            },
        }
    }
}

/// The message describing `e`.
pub open spec fn material_error_message(e: MaterialError) -> Seq<char> {
    match e {
        MaterialError::MaterialOutOfRange { index } => "material index "@ + decimal(index as nat)
            + " is out of range"@,
        MaterialError::NoBaseColor => "material has no base color texture"@,
        MaterialError::NoMetallicRoughness => "material has no metallic-roughness texture"@,
        MaterialError::Texture(t) => texture_error_message(t),
    }
}

impl MaterialError {
    /// A message describing the error.
    pub fn message(&self) -> (s: String)
        ensures
            s@ == material_error_message(*self),
    {
        match self {
            MaterialError::MaterialOutOfRange { index } => {
                let mut s = String::from_str("material index ");
                push_decimal(&mut s, *index as u64);
                s.append(" is out of range");
                s
            },
            MaterialError::NoBaseColor => String::from_str("material has no base color texture"),
            MaterialError::NoMetallicRoughness => String::from_str("material has no metallic-roughness texture"),
            MaterialError::Texture(t) => t.message(),
        }
    }
}

/// The message describing `e`.
pub open spec fn camera_angle_error_message(e: CameraAngleError) -> Seq<char> {
    match e {
        CameraAngleError::Yaw => "yaw must be finite"@,
        CameraAngleError::Pitch => "pitch must be finite"@,
        CameraAngleError::Zoom => "zoom must be finite"@,
    }
}

impl CameraAngleError {
    /// A message describing the error.
    pub fn message(&self) -> (s: String)
        ensures
            s@ == camera_angle_error_message(*self),
    {
        match self {
            CameraAngleError::Yaw => String::from_str("yaw must be finite"),
            CameraAngleError::Pitch => String::from_str("pitch must be finite"),
            CameraAngleError::Zoom => String::from_str("zoom must be finite"),
        }
    }
}

} // verus!
