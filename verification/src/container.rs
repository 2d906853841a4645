//! The binary glTF (GLB) container: a 12-byte header, a JSON chunk and an optional BIN chunk,
//! every chunk padded to a 4-byte boundary.
use vstd::prelude::*;

use crate::bytes::{get_le32, le32, lemma_read_le32_of_le32, push_le32, read_le32};

verus! {

/// How many fill bytes bring a length of `n` up to a multiple of 4.
pub open spec fn pad_len(n: nat) -> nat {
    ((4 - (n % 4) as int) % 4) as nat
}

/// `data` followed by as many `fill` bytes as bring its length to a multiple of 4.
pub open spec fn padded(data: Seq<u8>, fill: u8) -> Seq<u8> {
    data + Seq::new(pad_len(data.len()), |i: int| fill)
}

/// The ASCII bytes `glTF`, which open every GLB file.
pub open spec fn glb_magic() -> Seq<u8> {
    seq![0x67u8, 0x6c, 0x54, 0x46]
}

/// The type of a chunk of a GLB file.
#[derive(Copy, Clone, PartialEq, Eq, Structural, Debug)]
pub enum ChunkKind {
    /// The glTF JSON document (type `JSON`).
    Json,
    /// The binary buffer (type `BIN\0`).
    Bin,
}

/// The four type bytes of a chunk of kind `kind`.
pub open spec fn chunk_tag(kind: ChunkKind) -> Seq<u8> {
    match kind {
        ChunkKind::Json => seq![0x4au8, 0x53, 0x4f, 0x4e],
        ChunkKind::Bin => seq![0x42u8, 0x49, 0x4e, 0x00],
    }
}

/// The JSON chunk's content: `json` padded with spaces.
pub open spec fn json_chunk_data(json: Seq<u8>) -> Seq<u8> {
    padded(json, 0x20)
}

/// The BIN chunk's content: `bin` padded with zeros.
pub open spec fn bin_chunk_data(bin: Seq<u8>) -> Seq<u8> {
    padded(bin, 0)
}

/// The total length of the container holding `json` and `bin`; the BIN chunk is left out when
/// `bin` is empty.
pub open spec fn glb_total_len(json: Seq<u8>, bin: Seq<u8>) -> int {
    let jl = json_chunk_data(json).len();
    let bl = bin_chunk_data(bin).len();
    20 + jl as int + if bl > 0 {
        8 + bl as int
    } else {
        0int
    }
}

/// A chunk: its length, its type and its content.
pub open spec fn chunk_bytes(kind: ChunkKind, content: Seq<u8>) -> Seq<u8> {
    le32(content.len() as u32) + chunk_tag(kind) + content
}

/// The GLB file holding the JSON document `json` and the binary buffer `bin`.
pub open spec fn glb_bytes(json: Seq<u8>, bin: Seq<u8>) -> Seq<u8> {
    let bp = bin_chunk_data(bin);
    glb_magic() + le32(2) + le32(glb_total_len(json, bin) as u32) + chunk_bytes(
        ChunkKind::Json,
        json_chunk_data(json),
    ) + if bp.len() > 0 {
        chunk_bytes(ChunkKind::Bin, bp)
    } else {
        Seq::empty()
    }
}

/// Why a byte string is not a GLB file this reader accepts.
#[derive(Copy, Clone, PartialEq, Eq, Structural, Debug)]
pub enum GlbError {
    /// Shorter than the 12-byte header.
    TooShort { len: usize },
    /// The first four bytes are not `glTF`.
    BadMagic,
    /// The header declares a container version other than 2.
    UnsupportedVersion { version: u32 },
    /// The header's total length differs from the number of bytes.
    LengthMismatch { declared: u32, actual: usize },
    /// Fewer than 8 bytes are left where a chunk header should start.
    TruncatedChunkHeader,
    /// A chunk has another type than the one expected at its place; `found` is its type bytes
    /// read as a little-endian word.
    UnexpectedChunkType { expected: ChunkKind, found: u32 },
    /// A chunk declares more content than the bytes that follow its header.
    ChunkTooLong,
}

/// Reads the chunk of kind `kind` that starts `data`: its content, and the bytes after it.
pub open spec fn chunk_parse(data: Seq<u8>, kind: ChunkKind) -> Result<(Seq<u8>, Seq<u8>), GlbError> {
    if data.len() < 8 {
        Err(GlbError::TruncatedChunkHeader)
    } else if data.subrange(4, 8) != chunk_tag(kind) {
        Err(GlbError::UnexpectedChunkType { expected: kind, found: read_le32(data, 4) })
    } else if data.len() < 8 + read_le32(data, 0) {
        Err(GlbError::ChunkTooLong)
    } else {
        let end = 8 + read_le32(data, 0);
        Ok((data.subrange(8, end), data.subrange(end, data.len() as int)))
    }
}

/// Reads a GLB file into the content of its JSON chunk and of its BIN chunk (empty when the file
/// ends after the JSON chunk). Chunk contents keep their padding; bytes after the BIN chunk are
/// ignored.
pub open spec fn glb_parse(data: Seq<u8>) -> Result<(Seq<u8>, Seq<u8>), GlbError> {
    if data.len() < 12 {
        Err(GlbError::TooShort { len: data.len() as usize })
    } else if data.subrange(0, 4) != glb_magic() {
        Err(GlbError::BadMagic)
    } else if read_le32(data, 4) != 2 {
        Err(GlbError::UnsupportedVersion { version: read_le32(data, 4) })
    } else if read_le32(data, 8) != data.len() {
        Err(GlbError::LengthMismatch { declared: read_le32(data, 8), actual: data.len() as usize })
    } else {
        match chunk_parse(data.subrange(12, data.len() as int), ChunkKind::Json) {
            Err(e) => Err(e),
            Ok((json, rest)) => if rest.len() == 0 {
                Ok((json, Seq::empty()))
            } else {
                match chunk_parse(rest, ChunkKind::Bin) {
                    Err(e) => Err(e),
                    Ok((bin, _)) => Ok((json, bin)),
                }
            },
        }
    }
}

/// Reading a chunk back from its bytes gives its content and whatever followed it.
proof fn lemma_chunk_parse_of_chunk_bytes(kind: ChunkKind, content: Seq<u8>, tail: Seq<u8>)
    requires
        content.len() <= u32::MAX,
    ensures
        chunk_parse(chunk_bytes(kind, content) + tail, kind) == Ok::<_, GlbError>((content, tail)),
{
    let d = chunk_bytes(kind, content) + tail;
    assert(d =~= Seq::<u8>::empty() + le32(content.len() as u32) + (chunk_tag(kind) + content + tail));
    lemma_read_le32_of_le32(content.len() as u32, Seq::<u8>::empty(), chunk_tag(kind) + content + tail);
    assert(read_le32(d, 0) == content.len());
    assert(d.subrange(4, 8) =~= chunk_tag(kind));
    assert(d.subrange(8, 8 + content.len() as int) =~= content);
    assert(d.subrange(8 + content.len() as int, d.len() as int) =~= tail);
}

/// Padding adds fewer than 4 bytes and leaves a multiple of 4.
pub proof fn lemma_padded_len(data: Seq<u8>, fill: u8)
    ensures
        padded(data, fill).len() == data.len() + pad_len(data.len()),
        pad_len(data.len()) < 4,
        padded(data, fill).len() % 4 == 0,
        padded(data, fill).subrange(0, data.len() as int) == data,
{
    assert(padded(data, fill).subrange(0, data.len() as int) =~= data);
}

/// Reading back what `write_glb_container` writes gives the JSON and the binary data, each with
/// the padding that the writer added; the BIN chunk reads back empty when `bin` was empty.
pub proof fn lemma_read_glb_of_written(json: Seq<u8>, bin: Seq<u8>)
    requires
        glb_total_len(json, bin) <= u32::MAX,
    ensures
        glb_parse(glb_bytes(json, bin)) == Ok::<_, GlbError>((json_chunk_data(json), bin_chunk_data(bin))),
{
    let jp = json_chunk_data(json);
    let bp = bin_chunk_data(bin);
    lemma_padded_len(json, 0x20);
    lemma_padded_len(bin, 0);
    let total = glb_total_len(json, bin);
    let tail: Seq<u8> = if bp.len() > 0 {
        chunk_bytes(ChunkKind::Bin, bp)
    } else {
        Seq::empty()
    };
    let body = chunk_bytes(ChunkKind::Json, jp) + tail;
    let d = glb_bytes(json, bin);
    assert(d =~= glb_magic() + le32(2) + le32(total as u32) + body);
    assert(d.len() == total);
    assert(d.subrange(0, 4) =~= glb_magic());
    assert(d =~= glb_magic() + le32(2) + (le32(total as u32) + body));
    lemma_read_le32_of_le32(2, glb_magic(), le32(total as u32) + body);
    assert(d =~= (glb_magic() + le32(2)) + le32(total as u32) + body);
    lemma_read_le32_of_le32(total as u32, glb_magic() + le32(2), body);
    assert(d.subrange(12, d.len() as int) =~= body);
    lemma_chunk_parse_of_chunk_bytes(ChunkKind::Json, jp, tail);
    if bp.len() > 0 {
        assert(tail =~= chunk_bytes(ChunkKind::Bin, bp) + Seq::<u8>::empty());
        lemma_chunk_parse_of_chunk_bytes(ChunkKind::Bin, bp, Seq::empty());
    } else {
        assert(bp =~= Seq::<u8>::empty());
    }
}

/// The round trip for any JSON and binary data whose lengths, with the 34 bytes of headers and
/// padding at most, fit the format's 32-bit total length: the reader gives back the JSON padded
/// with spaces and the binary data padded with zeros, and an empty BIN chunk for empty data.
pub proof fn lemma_glb_round_trip(json: Seq<u8>, bin: Seq<u8>)
    requires
        json.len() + bin.len() + 34 <= u32::MAX,
    ensures
        glb_parse(glb_bytes(json, bin)) == Ok::<_, GlbError>((json_chunk_data(json), bin_chunk_data(bin))),
        bin.len() == 0 ==> bin_chunk_data(bin) == Seq::<u8>::empty(),
{
    if bin.len() == 0 {
        assert(bin_chunk_data(bin) =~= Seq::<u8>::empty()) by {
            lemma_padded_len(bin, 0);
        }
    }
    assert(glb_total_len(json, bin) <= u32::MAX) by {
        lemma_padded_len(json, 0x20);
        lemma_padded_len(bin, 0);
    }
    lemma_read_glb_of_written(json, bin);
}

/// Returns `data` followed by as many `fill` bytes as bring its length to a multiple of 4.
pub fn pad(data: &[u8], fill: u8) -> (out: Vec<u8>)
    ensures
        out@ == padded(data@, fill),
{
    let mut out: Vec<u8> = Vec::new();
    let mut i: usize = 0;
    while i < data.len()
        invariant
            i <= data@.len(),
            out@ == data@.subrange(0, i as int),
        decreases data@.len() - i,
    {
        out.push(data[i]);
        i = i + 1;
        assert(out@ =~= data@.subrange(0, i as int));
    }
    assert(out@ =~= data@);
    while out.len() % 4 != 0
        invariant
            out@.len() <= data@.len() + 3,
            out@.len() <= data@.len() + pad_len(data@.len()),
            out@ =~= data@ + Seq::new((out@.len() - data@.len()) as nat, |k: int| fill),
            out@.len() >= data@.len(),
        decreases data@.len() + pad_len(data@.len()) - out@.len(),
    {
        out.push(fill);
        assert(out@ =~= data@ + Seq::new((out@.len() - data@.len()) as nat, |k: int| fill));
    }
    assert(out@.len() == data@.len() + pad_len(data@.len()));
    out
}

/// Pushes a chunk header (length and type) followed by `content`.
fn push_chunk(out: &mut Vec<u8>, kind: ChunkKind, content: &Vec<u8>)
    ensures
        final(out)@ == old(out)@ + chunk_bytes(kind, content@),
{
    push_le32(out, content.len() as u32);
    match kind {
        ChunkKind::Json => {
            out.push(0x4a);
            out.push(0x53);
            out.push(0x4f);
            out.push(0x4e);
        },
        ChunkKind::Bin => {
            out.push(0x42);
            out.push(0x49);
            out.push(0x4e);
            out.push(0x00);
        },
    }
    let ghost mid = out@;
    let mut i: usize = 0;
    while i < content.len()
        invariant
            i <= content@.len(),
            out@ == mid + content@.subrange(0, i as int),
        decreases content@.len() - i,
    {
        out.push(content[i]);
        i = i + 1;
        assert(out@ =~= mid + content@.subrange(0, i as int));
    }
    assert(content@.subrange(0, content@.len() as int) =~= content@);
    assert(final(out)@ =~= old(out)@ + chunk_bytes(kind, content@));
}

/// Frames `json` and `bin` as a GLB file: the `glTF` header (version 2 and the total length),
/// the JSON chunk padded with spaces, then, unless `bin` is empty, the BIN chunk padded with
/// zeros.
pub fn write_glb_container(json: &[u8], bin: &[u8]) -> (out: Vec<u8>)
    requires
        json@.len() + bin@.len() + 34 <= usize::MAX,
    ensures
        out@ == glb_bytes(json@, bin@),
{
    let json_padded = pad(json, 0x20);
    let bin_padded = pad(bin, 0);
    let has_bin = bin_padded.len() > 0;
    let total_len: usize = 20 + json_padded.len() + if has_bin {
        8 + bin_padded.len()
    } else {
        0
    };
    let mut out: Vec<u8> = Vec::new();
    out.push(0x67);
    out.push(0x6c);
    out.push(0x54);
    out.push(0x46);
    push_le32(&mut out, 2);
    push_le32(&mut out, total_len as u32);
    push_chunk(&mut out, ChunkKind::Json, &json_padded);
    if has_bin {
        push_chunk(&mut out, ChunkKind::Bin, &bin_padded);
    }
    assert(out@ =~= glb_bytes(json@, bin@));
    out
}

/// Reads the chunk of kind `kind` that starts `data`: its content and the bytes after it.
pub fn read_chunk(data: &[u8], kind: ChunkKind) -> (res: Result<(&[u8], &[u8]), GlbError>)
    ensures
        match res {
            Ok((content, rest)) => chunk_parse(data@, kind) == Ok::<_, GlbError>((content@, rest@)),
            Err(e) => chunk_parse(data@, kind) == Err::<(Seq<u8>, Seq<u8>), _>(e),
        },
{
    if data.len() < 8 {
        return Err(GlbError::TruncatedChunkHeader);
    }
    let tag_matches = match kind {
        ChunkKind::Json => data[4] == 0x4a && data[5] == 0x53 && data[6] == 0x4f && data[7] == 0x4e,
        ChunkKind::Bin => data[4] == 0x42 && data[5] == 0x49 && data[6] == 0x4e && data[7] == 0x00,
    };
    if !tag_matches {
        proof {
            if data@.subrange(4, 8) == chunk_tag(kind) {
                assert(data@.subrange(4, 8)[0] == data@[4]);
                assert(data@.subrange(4, 8)[1] == data@[5]);
                assert(data@.subrange(4, 8)[2] == data@[6]);
                assert(data@.subrange(4, 8)[3] == data@[7]);
            }
        }
        return Err(GlbError::UnexpectedChunkType { expected: kind, found: get_le32(data, 4) });
    }
    assert(data@.subrange(4, 8) =~= chunk_tag(kind));
    let chunk_len = get_le32(data, 0) as usize;
    if chunk_len > data.len() - 8 {
        return Err(GlbError::ChunkTooLong);
    }
    let end = 8 + chunk_len;
    Ok((vstd::slice::slice_subrange(data, 8, end), vstd::slice::slice_subrange(data, end, data.len())))
}

/// Reads a GLB file into the content of its JSON chunk (still padded with spaces) and of its BIN
/// chunk (still padded with zeros; empty when the file has no BIN chunk).
pub fn read_glb_container(data: &[u8]) -> (res: Result<(&[u8], &[u8]), GlbError>)
    ensures
        match res {
            Ok((json, bin)) => glb_parse(data@) == Ok::<_, GlbError>((json@, bin@)),
            Err(e) => glb_parse(data@) == Err::<(Seq<u8>, Seq<u8>), _>(e),
        },
{
    if data.len() < 12 {
        return Err(GlbError::TooShort { len: data.len() });
    }
    if !(data[0] == 0x67 && data[1] == 0x6c && data[2] == 0x54 && data[3] == 0x46) {
        proof {
            if data@.subrange(0, 4) == glb_magic() {
                assert(data@.subrange(0, 4)[0] == data@[0]);
                assert(data@.subrange(0, 4)[1] == data@[1]);
                assert(data@.subrange(0, 4)[2] == data@[2]);
                assert(data@.subrange(0, 4)[3] == data@[3]);
            }
        }
        return Err(GlbError::BadMagic);
    }
    assert(data@.subrange(0, 4) =~= glb_magic());
    let version = get_le32(data, 4);
    if version != 2 {
        return Err(GlbError::UnsupportedVersion { version });
    }
    let declared = get_le32(data, 8);
    if declared as usize != data.len() {
        return Err(GlbError::LengthMismatch { declared, actual: data.len() });
    }
    let body = vstd::slice::slice_subrange(data, 12, data.len());
    let (json, rest) = match read_chunk(body, ChunkKind::Json) {
        Ok(parts) => parts,
        Err(e) => return Err(e),
    };
    if rest.len() == 0 {
        let empty: &[u8] = vstd::slice::slice_subrange(rest, 0, 0);
        assert(empty@ =~= Seq::<u8>::empty());
        return Ok((json, empty));
    }
    match read_chunk(rest, ChunkKind::Bin) {
        Ok((bin, _)) => Ok((json, bin)),
        Err(e) => Err(e),
    }
}

} // verus!
