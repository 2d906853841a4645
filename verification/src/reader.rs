//! Reading accessor data back out of a glTF binary buffer: the 32-bit words of an accessor, in
//! order, checked against its buffer view and the buffer.
use vstd::prelude::*;

use crate::bytes::{get_le32, read_le32};
use crate::gltf::BufferView;
use crate::writer::{Accessor, AccessorKind};

verus! {

/// Why an accessor could not be read.
#[derive(Copy, Clone, PartialEq, Eq, Structural, Debug)]
pub enum AccessorError {
    /// No accessor at this index.
    AccessorOutOfRange { index: u32 },
    /// The accessor has another element type than the one asked for.
    WrongKind { expected: AccessorKind, found: AccessorKind },
    /// The accessor has another component type than the one asked for.
    WrongComponentType { expected: u32, found: u32 },
    /// The accessor's buffer view index is out of range.
    ViewOutOfRange { index: u32 },
    /// The accessor's data does not fit in its buffer view, or the view in the buffer.
    OutOfBounds,
}

/// The number of components of an element of `kind`.
pub open spec fn kind_width(kind: AccessorKind) -> int {
    match kind {
        AccessorKind::Scalar => 1,
        AccessorKind::Vec2 => 2,
        AccessorKind::Vec3 => 3,
        AccessorKind::Vec4 => 4,
    }
}

/// The glTF name of an element type.
pub open spec fn kind_name(kind: AccessorKind) -> Seq<char> {
    match kind {
        AccessorKind::Scalar => "SCALAR"@,
        AccessorKind::Vec2 => "VEC2"@,
        AccessorKind::Vec3 => "VEC3"@,
        AccessorKind::Vec4 => "VEC4"@,
    }
}

/// The element type a glTF accessor `type` names, if it is one of those this library writes.
pub fn parse_accessor_kind(name: &str) -> (r: Option<AccessorKind>)
    ensures
        match r {
            Some(k) => kind_name(k) == name@,
            None => forall|k: AccessorKind| kind_name(k) != name@,
        },
{
    let s = String::from_str(name);
    proof {
        reveal_strlit("SCALAR");
        reveal_strlit("VEC2");
        reveal_strlit("VEC3");
        reveal_strlit("VEC4");
    }
    if s == String::from_str("SCALAR") {
        Some(AccessorKind::Scalar)
    } else if s == String::from_str("VEC2") {
        Some(AccessorKind::Vec2)
    } else if s == String::from_str("VEC3") {
        Some(AccessorKind::Vec3)
    } else if s == String::from_str("VEC4") {
        Some(AccessorKind::Vec4)
    } else {
        proof {
            assert forall|k: AccessorKind| kind_name(k) != name@ by {
                match k {
                    AccessorKind::Scalar => {},
                    AccessorKind::Vec2 => {},
                    AccessorKind::Vec3 => {},
                    AccessorKind::Vec4 => {},
                }
            }
        }
        None
    }
}

/// The glTF name of an element type.
pub fn accessor_kind_name(kind: AccessorKind) -> (s: String)
    ensures
        s@ == kind_name(kind),
{
    match kind {
        AccessorKind::Scalar => String::from_str("SCALAR"),
        AccessorKind::Vec2 => String::from_str("VEC2"),
        AccessorKind::Vec3 => String::from_str("VEC3"),
        AccessorKind::Vec4 => String::from_str("VEC4"),
    }
}

/// What reading accessor `index` as elements of `kind` with components of type `component_type`
/// gives: the accessor looked up and checked, then its buffer view looked up, then its
/// `count * width` words read from the start of the view, which must hold them and lie inside
/// `bin`.
pub open spec fn accessor_reading(
    accessors: Seq<Accessor>,
    views: Seq<BufferView>,
    bin: Seq<u8>,
    index: u32,
    kind: AccessorKind,
    component_type: u32,
) -> Result<Seq<u32>, AccessorError> {
    if index >= accessors.len() {
        Err(AccessorError::AccessorOutOfRange { index })
    } else {
        let a = accessors[index as int];
        if a.kind != kind {
            Err(AccessorError::WrongKind { expected: kind, found: a.kind })
        } else if a.component_type != component_type {
            Err(AccessorError::WrongComponentType { expected: component_type, found: a.component_type })
        } else if a.buffer_view >= views.len() {
            Err(AccessorError::ViewOutOfRange { index: a.buffer_view })
        } else {
            let v = views[a.buffer_view as int];
            let n = a.count * kind_width(kind);
            if 4 * n > v.byte_length || v.byte_offset + v.byte_length > bin.len() {
                Err(AccessorError::OutOfBounds)
            } else {
                Ok(Seq::new(n as nat, |k: int| read_le32(bin, v.byte_offset + 4 * k)))
            }
        }
    }
}

/// Reads accessor `index` as elements of `kind` with components of type `component_type`: its
/// words, element after element.
pub fn accessor_words(
    accessors: &Vec<Accessor>,
    views: &Vec<BufferView>,
    bin: &[u8],
    index: u32,
    kind: AccessorKind,
    component_type: u32,
) -> (r: Result<Vec<u32>, AccessorError>)
    ensures
        match accessor_reading(accessors@, views@, bin@, index, kind, component_type) {
            Ok(words) => r matches Ok(w) && w@ == words,
            Err(e) => r == Err::<Vec<u32>, _>(e),
        },
{
    if index as usize >= accessors.len() {
        return Err(AccessorError::AccessorOutOfRange { index });
    }
    let a = &accessors[index as usize];
    if a.kind != kind {
        return Err(AccessorError::WrongKind { expected: kind, found: a.kind });
    }
    if a.component_type != component_type {
        return Err(AccessorError::WrongComponentType { expected: component_type, found: a.component_type });
    }
    if a.buffer_view as usize >= views.len() {
        return Err(AccessorError::ViewOutOfRange { index: a.buffer_view });
    }
    let v = views[a.buffer_view as usize];
    let width: u64 = match kind {
        AccessorKind::Scalar => 1,
        AccessorKind::Vec2 => 2,
        AccessorKind::Vec3 => 3,
        AccessorKind::Vec4 => 4,
    };
    let n = a.count as u64 * width;
    if 4 * n > v.byte_length as u64 || v.byte_offset as u64 + v.byte_length as u64 > bin.len() as u64 {
        return Err(AccessorError::OutOfBounds);
    }
    let ghost expected = Seq::new(n as nat, |k: int| read_le32(bin@, v.byte_offset + 4 * k));
    let start = v.byte_offset as usize;
    let blen = bin.len();
    let mut words: Vec<u32> = Vec::new();
    let mut k: usize = 0;
    while k < n as usize
        invariant
            k <= n,
            4 * n <= v.byte_length,
            v.byte_offset + v.byte_length <= bin@.len(),
            start == v.byte_offset,
            blen == bin@.len(),
            words@ == expected.take(k as int),
            expected == Seq::new(n as nat, |k: int| read_le32(bin@, v.byte_offset + 4 * k)),
        decreases n - k,
    {
        let w = get_le32(bin, start + 4 * k);
        words.push(w);
        k = k + 1;
        assert(words@ =~= expected.take(k as int));
    }
    assert(expected.take(n as int) =~= expected);
    Ok(words)
}

} // verus!
