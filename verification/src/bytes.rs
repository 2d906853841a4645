//! Little-endian encoding of 32-bit words, shared by the GLB writer and reader.
use vstd::prelude::*;

verus! {

/// The four little-endian bytes of `x`.
pub open spec fn le32(x: u32) -> Seq<u8> {
    seq![
        (x % 256) as u8,
        ((x / 256) % 256) as u8,
        ((x / 65536) % 256) as u8,
        (x / 16777216) as u8,
    ]
}

/// The word whose little-endian bytes are `s[at..at + 4]`.
pub open spec fn read_le32(s: Seq<u8>, at: int) -> u32 {
    (s[at] as int + 256 * s[at + 1] + 65536 * s[at + 2] + 16777216 * s[at + 3]) as u32
}

/// Decoding the encoding of a word gives the word back.
pub proof fn lemma_read_le32_of_le32(x: u32, prefix: Seq<u8>, suffix: Seq<u8>)
    ensures
        read_le32(prefix + le32(x) + suffix, prefix.len() as int) == x,
{
    let s = prefix + le32(x) + suffix;
    let p = prefix.len() as int;
    assert(s[p] == (x % 256) as u8);
    assert(s[p + 1] == ((x / 256) % 256) as u8);
    assert(s[p + 2] == ((x / 65536) % 256) as u8);
    assert(s[p + 3] == (x / 16777216) as u8);
    assert((x % 256) + 256 * ((x / 256) % 256) + 65536 * ((x / 65536) % 256) + 16777216 * (x
        / 16777216) == x) by (nonlinear_arith);
}

/// Encoding a decoded word gives the four bytes back.
pub proof fn lemma_le32_of_read_le32(s: Seq<u8>, at: int)
    requires
        0 <= at,
        at + 4 <= s.len(),
    ensures
        le32(read_le32(s, at)) == s.subrange(at, at + 4),
{
    let (b0, b1, b2, b3) = (s[at] as int, s[at + 1] as int, s[at + 2] as int, s[at + 3] as int);
    let v = b0 + 256 * b1 + 65536 * b2 + 16777216 * b3;
    assert(0 <= v < 0x1_0000_0000) by (nonlinear_arith)
        requires
            0 <= b0 < 256,
            0 <= b1 < 256,
            0 <= b2 < 256,
            0 <= b3 < 256,
            v == b0 + 256 * b1 + 65536 * b2 + 16777216 * b3,
    ;
    assert(v % 256 == b0 && (v / 256) % 256 == b1 && (v / 65536) % 256 == b2 && v / 16777216
        == b3) by (nonlinear_arith)
        requires
            0 <= b0 < 256,
            0 <= b1 < 256,
            0 <= b2 < 256,
            0 <= b3 < 256,
            v == b0 + 256 * b1 + 65536 * b2 + 16777216 * b3,
    ;
    assert(le32(read_le32(s, at)) =~= s.subrange(at, at + 4));
}

/// Appends the little-endian bytes of `x` to `out`.
pub fn push_le32(out: &mut Vec<u8>, x: u32)
    ensures
        final(out)@ == old(out)@ + le32(x),
{
    out.push((x % 256) as u8);
    out.push(((x / 256) % 256) as u8);
    out.push(((x / 65536) % 256) as u8);
    out.push((x / 16777216) as u8);
    assert(final(out)@ =~= old(out)@ + le32(x));
}

/// The word whose little-endian bytes are `data[at..at + 4]`.
pub fn get_le32(data: &[u8], at: usize) -> (x: u32)
    requires
        at + 4 <= data@.len(),
    ensures
        x == read_le32(data@, at as int),
{
    let (b0, b1, b2, b3) = (data[at] as u32, data[at + 1] as u32, data[at + 2] as u32, data[at + 3] as u32);
    assert(b0 + 256 * b1 + 65536 * b2 + 16777216 * b3 < 0x1_0000_0000) by (nonlinear_arith)
        requires
            b0 < 256,
            b1 < 256,
            b2 < 256,
            b3 < 256,
    ;
    b0 + 256 * b1 + 65536 * b2 + 16777216 * b3
}

} // verus!
