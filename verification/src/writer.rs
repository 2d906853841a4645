//! Accumulates the binary buffer of a glTF document: buffer views aligned to 4 bytes, accessors
//! over them, and the PNG textures and materials of palette buckets.
use vstd::prelude::*;

use crate::bytes::{le32, push_le32};
use crate::container::{lemma_padded_len, pad_len, padded};
use crate::gltf::{
    BufferView, Image, Sampler, Texture, COMPONENT_TYPE_FLOAT, COMPONENT_TYPE_UNSIGNED_INT, FILTER_NEAREST,
    TARGET_ELEMENT_ARRAY_BUFFER, WRAP_CLAMP_TO_EDGE,
};

verus! {

/// The element type of an accessor.
#[derive(Copy, Clone, PartialEq, Eq, Structural, Debug)]
pub enum AccessorKind {
    Scalar,
    Vec2,
    Vec3,
    Vec4,
}

/// A typed view of a buffer view. Bounds, when present, are the bit patterns of `f32` values.
pub struct Accessor {
    pub buffer_view: u32,
    pub component_type: u32,
    pub count: u32,
    pub kind: AccessorKind,
    pub min: Option<Vec<u32>>,
    pub max: Option<Vec<u32>>,
}

/// The binary buffer under construction, with its buffer views and accessors.
pub struct BinWriter {
    pub bytes: Vec<u8>,
    pub buffer_views: Vec<BufferView>,
    pub accessors: Vec<Accessor>,
}

/// The little-endian bytes of `ws`, word after word.
pub open spec fn words_le(ws: Seq<u32>) -> Seq<u8>
    decreases ws.len(),
{
    if ws.len() == 0 {
        Seq::empty()
    } else {
        words_le(ws.drop_last()) + le32(ws.last())
    }
}

/// The buffer view that `push_view` records for `data` appended to `bytes`.
pub open spec fn view_after(bytes: Seq<u8>, data: Seq<u8>, target: Option<u32>) -> BufferView {
    BufferView {
        buffer: 0,
        byte_offset: padded(bytes, 0).len() as u32,
        byte_length: data.len() as u32,
        target,
    }
}

/// Appends zeros to `bytes` until its length is a multiple of 4.
fn pad_in_place(bytes: &mut Vec<u8>, fill: u8)
    ensures
        final(bytes)@ == padded(old(bytes)@, fill),
{
    let ghost start = bytes@;
    while bytes.len() % 4 != 0
        invariant
            bytes@.len() <= start.len() + pad_len(start.len()),
            bytes@ =~= start + Seq::new((bytes@.len() - start.len()) as nat, |k: int| fill),
            bytes@.len() >= start.len(),
        decreases start.len() + pad_len(start.len()) - bytes@.len(),
    {
        bytes.push(fill);
        assert(bytes@ =~= start + Seq::new((bytes@.len() - start.len()) as nat, |k: int| fill));
    }
}

/// The little-endian bytes of `words`.
pub fn flatten_le(words: &Vec<u32>) -> (out: Vec<u8>)
    ensures
        out@ == words_le(words@),
{
    let mut out: Vec<u8> = Vec::new();
    let mut k: usize = 0;
    while k < words.len()
        invariant
            k <= words@.len(),
            out@ == words_le(words@.take(k as int)),
        decreases words@.len() - k,
    {
        push_le32(&mut out, words[k]);
        proof {
            assert(words@.take(k + 1).drop_last() =~= words@.take(k as int));
        }
        k = k + 1;
    }
    assert(words@.take(words@.len() as int) =~= words@);
    out
}

impl BinWriter {
    /// An empty buffer.
    pub fn new() -> (w: BinWriter)
        ensures
            w.bytes@.len() == 0,
            w.buffer_views@.len() == 0,
            w.accessors@.len() == 0,
    {
        BinWriter { bytes: Vec::new(), buffer_views: Vec::new(), accessors: Vec::new() }
    }

    /// Pads the buffer with zeros to a multiple of 4 bytes, appends `data` and records a buffer
    /// view over it; returns the view's index.
    pub fn push_view(&mut self, data: &[u8], target: Option<u32>) -> (index: u32)
        ensures
            final(self).bytes@ == padded(old(self).bytes@, 0) + data@,
            final(self).buffer_views@ == old(self).buffer_views@.push(view_after(old(self).bytes@, data@, target)),
            final(self).accessors@ == old(self).accessors@,
            index == old(self).buffer_views@.len() as u32,
            padded(old(self).bytes@, 0).len() % 4 == 0,
    {
        proof {
            lemma_padded_len(self.bytes@, 0);
        }
        pad_in_place(&mut self.bytes, 0);
        let byte_offset = self.bytes.len() as u32;
        let ghost padded_bytes = self.bytes@;
        let mut k: usize = 0;
        while k < data.len()
            invariant
                k <= data@.len(),
                self.bytes@ == padded_bytes + data@.take(k as int),
                self.buffer_views@ == old(self).buffer_views@,
                self.accessors@ == old(self).accessors@,
            decreases data@.len() - k,
        {
            self.bytes.push(data[k]);
            k = k + 1;
            assert(self.bytes@ =~= padded_bytes + data@.take(k as int));
        }
        assert(data@.take(data@.len() as int) =~= data@);
        let index = self.buffer_views.len() as u32;
        self.buffer_views.push(BufferView { buffer: 0, byte_offset, byte_length: data.len() as u32, target });
        index
    }

    /// Records `data` as a buffer view and an accessor of `count` elements of `kind` over it;
    /// returns the accessor's index.
    pub fn push_accessor(
        &mut self,
        component_type: u32,
        count: u32,
        kind: AccessorKind,
        data: &[u8],
        target: Option<u32>,
        bounds: Option<(Vec<u32>, Vec<u32>)>,
    ) -> (index: u32)
        ensures
            final(self).bytes@ == padded(old(self).bytes@, 0) + data@,
            final(self).buffer_views@ == old(self).buffer_views@.push(view_after(old(self).bytes@, data@, target)),
            final(self).accessors@.len() == old(self).accessors@.len() + 1,
            forall|i: int| 0 <= i < old(self).accessors@.len() ==> final(self).accessors@[i] == old(self).accessors@[i],
            ({
                let a = final(self).accessors@.last();
                &&& a.buffer_view == old(self).buffer_views@.len() as u32
                &&& a.component_type == component_type
                &&& a.count == count
                &&& a.kind == kind
                &&& match bounds {
                    Some((lo, hi)) => (a.min matches Some(m) && m@ == lo@) && (a.max matches Some(n) && n@ == hi@),
                    None => a.min is None && a.max is None,
                }
            }),
            index == old(self).accessors@.len() as u32,
    {
        let buffer_view = self.push_view(data, target);
        let index = self.accessors.len() as u32;
        let (min, max) = match bounds {
            Some((lo, hi)) => (Some(lo), Some(hi)),
            None => (None, None),
        };
        self.accessors.push(Accessor { buffer_view, component_type, count, kind, min, max });
        index
    }

    /// Records the vertex indices `indices` (little-endian `u32`s) as a scalar accessor over an
    /// element-array buffer view; returns the accessor's index.
    pub fn write_indices(&mut self, indices: &Vec<u32>) -> (index: u32)
        ensures
            final(self).bytes@ == padded(old(self).bytes@, 0) + words_le(indices@),
            final(self).buffer_views@ == old(self).buffer_views@.push(
                view_after(old(self).bytes@, words_le(indices@), Some(TARGET_ELEMENT_ARRAY_BUFFER)),
            ),
            final(self).accessors@.len() == old(self).accessors@.len() + 1,
            forall|i: int| 0 <= i < old(self).accessors@.len() ==> final(self).accessors@[i] == old(self).accessors@[i],
            ({
                let a = final(self).accessors@.last();
                &&& a.buffer_view == old(self).buffer_views@.len() as u32
                &&& a.component_type == COMPONENT_TYPE_UNSIGNED_INT
                &&& a.count == indices@.len() as u32
                &&& a.kind == AccessorKind::Scalar
                &&& a.min is None && a.max is None
            }),
            index == old(self).accessors@.len() as u32,
    {
        let bytes = flatten_le(indices);
        self.push_accessor(
            COMPONENT_TYPE_UNSIGNED_INT,
            indices.len() as u32,
            AccessorKind::Scalar,
            bytes.as_slice(),
            Some(TARGET_ELEMENT_ARRAY_BUFFER),
            None,
        )
    }

    /// Records `count` elements of `kind` made of 32-bit floats, given by their bit patterns in
    /// `words`, as an accessor; returns the accessor's index.
    pub fn write_float_words(
        &mut self,
        words: &Vec<u32>,
        count: u32,
        kind: AccessorKind,
        target: Option<u32>,
        bounds: Option<(Vec<u32>, Vec<u32>)>,
    ) -> (index: u32)
        ensures
            final(self).bytes@ == padded(old(self).bytes@, 0) + words_le(words@),
            final(self).buffer_views@ == old(self).buffer_views@.push(view_after(old(self).bytes@, words_le(words@), target)),
            final(self).accessors@.len() == old(self).accessors@.len() + 1,
            forall|i: int| 0 <= i < old(self).accessors@.len() ==> final(self).accessors@[i] == old(self).accessors@[i],
            ({
                let a = final(self).accessors@.last();
                &&& a.buffer_view == old(self).buffer_views@.len() as u32
                &&& a.component_type == COMPONENT_TYPE_FLOAT
                &&& a.count == count
                &&& a.kind == kind
                &&& match bounds {
                    Some((lo, hi)) => (a.min matches Some(m) && m@ == lo@) && (a.max matches Some(n) && n@ == hi@),
                    None => a.min is None && a.max is None,
                }
            }),
            index == old(self).accessors@.len() as u32,
    {
        let bytes = flatten_le(words);
        self.push_accessor(COMPONENT_TYPE_FLOAT, count, kind, bytes.as_slice(), target, bounds)
    }
}

} // verus!
