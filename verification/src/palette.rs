//! Colors, palettes and the materials they hold.
//!
//! Material properties are real numbers given from Python; here they are carried as the IEEE
//! 754 bit patterns of those `f64` values, so that the checks on them are exact comparisons of
//! bit patterns. For values whose sign bit is clear, the order of bit patterns is the order of
//! the numbers; `+0.0` is `0` and `-0.0` is `0x8000_0000_0000_0000`, `1.0` is
//! `0x3FF0_0000_0000_0000`, and every pattern from `0x7FF0_0000_0000_0000` on (with the sign bit
//! clear) is infinite or NaN.
use vstd::prelude::*;

verus! {

/// An RGB color, 0 to 255 per channel.
#[derive(Copy, Clone, PartialEq, Eq, Structural, Debug, Hash)]
pub struct Color {
    pub r: u8,
    pub g: u8,
    pub b: u8,
}

impl Color {
    /// The color with red, green and blue components `r`, `g`, `b`.
    pub fn new(r: u8, g: u8, b: u8) -> (c: Color)
        ensures
            c == (Color { r, g, b }),
    {
        Color { r, g, b }
    }
}

/// The code of a material inside its palette: its index plus one, so that 0 can mean "no
/// material" in a voxel grid's byte form.
#[derive(Copy, Clone, PartialEq, Eq, Structural, Debug)]
pub struct MaterialCode {
    code: u8,
}

impl MaterialCode {
    #[verifier::type_invariant]
    spec fn code_nonzero(self) -> bool {
        self.code >= 1
    }

    /// The index of the material in its palette.
    pub closed spec fn spec_index(self) -> int {
        self.code - 1
    }

    /// The stored byte, `index + 1`.
    pub closed spec fn spec_code(self) -> u8 {
        self.code
    }

    /// A material's index is its code minus one.
    pub proof fn lemma_index_of_code(self)
        ensures
            self.spec_index() == self.spec_code() - 1,
    {
    }

    /// A code is its stored byte and nothing else: two codes are equal exactly when their bytes
    /// are, and exactly when their indices are.
    pub proof fn lemma_code_determines(self, other: MaterialCode)
        ensures
            (self == other) <==> (self.spec_code() == other.spec_code()),
            (self == other) <==> (self.spec_index() == other.spec_index()),
    {
    }

    /// The code of the material at `index`.
    pub fn new(index: usize) -> (c: MaterialCode)
        requires
            index <= 254,
        ensures
            c.spec_index() == index,
            c.spec_code() == index + 1,
    {
        MaterialCode { code: (index + 1) as u8 }
    }

    /// The index of the material in its palette.
    pub fn index(self) -> (i: usize)
        ensures
            i == self.spec_index(),
            i <= 254,
    {
        proof {
            use_type_invariant(&self);
        }
        (self.code - 1) as usize
    }

    /// The stored byte, `index + 1` (never 0).
    pub fn code(self) -> (b: u8)
        ensures
            b == self.spec_code(),
            b >= 1,
            b == self.spec_index() + 1,
    {
        proof {
            use_type_invariant(&self);
        }
        self.code
    }
}

/// The bit pattern of `+0.0` or `-0.0`.
pub open spec fn is_zero_bits(bits: u64) -> bool {
    bits == 0 || bits == 0x8000_0000_0000_0000
}

/// The bit pattern of a value in `[0.0, 1.0]`.
pub open spec fn unit_interval_bits(bits: u64) -> bool {
    bits <= 0x3FF0_0000_0000_0000 || bits == 0x8000_0000_0000_0000
}

/// The bit pattern of a finite value `>= 0.0`.
pub open spec fn finite_non_negative_bits(bits: u64) -> bool {
    bits < 0x7FF0_0000_0000_0000 || bits == 0x8000_0000_0000_0000
}

/// The bit pattern of a finite value `> 0.0`.
pub open spec fn finite_positive_bits(bits: u64) -> bool {
    0 < bits < 0x7FF0_0000_0000_0000
}

/// The bit pattern of an index of refraction this library accepts: 0.0, or finite and `>= 1.0`.
pub open spec fn ior_bits_ok(bits: u64) -> bool {
    is_zero_bits(bits) || (0x3FF0_0000_0000_0000 <= bits < 0x7FF0_0000_0000_0000)
}

/// A participating medium behind a transmissive surface: its attenuation color, and the
/// attenuation distance and thickness as bit patterns of finite positive values.
#[derive(Copy, Clone, PartialEq, Eq, Structural, Debug)]
pub struct Volume {
    pub color: Color,
    pub distance: u64,
    pub thickness: u64,
}

/// Why a material or a volume was refused.
#[derive(Copy, Clone, PartialEq, Eq, Structural, Debug)]
pub enum PaletteError {
    /// The roughness is not in `[0.0, 1.0]`.
    Roughness,
    /// The metallic factor is not in `[0.0, 1.0]`.
    Metallic,
    /// The transmission factor is not in `[0.0, 1.0]`.
    Transmission,
    /// The index of refraction is neither 0.0 nor finite and `>= 1.0`.
    Ior,
    /// The emissive strength is not finite and `>= 0.0`.
    Emissive,
    /// The palette already holds 255 materials.
    Full,
    /// A volume's distance is not finite and `> 0.0`.
    VolumeDistance,
    /// A volume's thickness is not finite and `> 0.0`.
    VolumeThickness,
}

impl Volume {
    /// A volume of attenuation color `color`, attenuation `distance` and `thickness` (bit
    /// patterns); both must be finite and positive.
    pub fn new(color: Color, distance: u64, thickness: u64) -> (r: Result<Volume, PaletteError>)
        ensures
            r == if !finite_positive_bits(distance) {
                Err(PaletteError::VolumeDistance)
            } else if !finite_positive_bits(thickness) {
                Err(PaletteError::VolumeThickness)
            } else {
                Ok(Volume { color, distance, thickness })
            },
    {
        if !(0 < distance && distance < 0x7FF0_0000_0000_0000) {
            return Err(PaletteError::VolumeDistance);
        }
        if !(0 < thickness && thickness < 0x7FF0_0000_0000_0000) {
            return Err(PaletteError::VolumeThickness);
        }
        Ok(Volume { color, distance, thickness })
    }
}

/// A material: a color and PBR properties (bit patterns of the `f64` values).
#[derive(Copy, Clone, PartialEq, Eq, Structural, Debug)]
pub struct Material {
    pub color: Color,
    pub roughness: u64,
    pub metallic: u64,
    pub ior: u64,
    pub transmission: u64,
    pub emissive: u64,
    pub volume: Option<Volume>,
}

/// A handle on a palette, telling palettes apart.
#[derive(Copy, Clone, PartialEq, Eq, Structural, Debug, Hash)]
pub struct PaletteId {
    pub id: u64,
}

/// A material of a palette, as held by voxel models: the palette and the code inside it.
#[derive(Copy, Clone, PartialEq, Eq, Structural, Debug)]
pub struct MaterialRef {
    pub palette: PaletteId,
    pub code: MaterialCode,
}

/// An ordered list of at most 255 materials.
pub struct Palette {
    pub id: PaletteId,
    pub materials: Vec<Material>,
}

/// What `add_material` answers for material `m` added to a palette holding `len` materials.
pub open spec fn add_material_error(m: Material, len: int) -> Option<PaletteError> {
    if !unit_interval_bits(m.roughness) {
        Some(PaletteError::Roughness)
    } else if !unit_interval_bits(m.metallic) {
        Some(PaletteError::Metallic)
    } else if !unit_interval_bits(m.transmission) {
        Some(PaletteError::Transmission)
    } else if !ior_bits_ok(m.ior) {
        Some(PaletteError::Ior)
    } else if !finite_non_negative_bits(m.emissive) {
        Some(PaletteError::Emissive)
    } else if len >= 255 {
        Some(PaletteError::Full)
    } else {
        None
    }
}

/// A material is accepted by a palette holding `len` materials exactly when `len` is under 255
/// and each property lies in its range, the bounds included: roughness, metallic and
/// transmission in `[0.0, 1.0]` (bit patterns from `+0.0` to that of `1.0`, or `-0.0`), ior
/// `0.0` or finite and at least `1.0`, emissive finite and at least `0.0`. A refusal names the
/// first property out of range, in that order, and `Full` only when all are in range. Neither
/// the color nor the volume plays a part.
pub proof fn lemma_add_material_accepts(m: Material, len: int, color: Color, volume: Option<Volume>)
    ensures
        ({
            let unit = |b: u64| b <= 0x3FF0_0000_0000_0000 || b == 0x8000_0000_0000_0000;
            let r = add_material_error(m, len);
            &&& r is None <==> (unit(m.roughness) && unit(m.metallic) && unit(m.transmission) && (m.ior == 0
                || m.ior == 0x8000_0000_0000_0000 || (0x3FF0_0000_0000_0000 <= m.ior
                < 0x7FF0_0000_0000_0000)) && (m.emissive < 0x7FF0_0000_0000_0000 || m.emissive
                == 0x8000_0000_0000_0000) && len < 255)
            &&& !unit(m.roughness) ==> r == Some(PaletteError::Roughness)
            &&& unit(m.roughness) && !unit(m.metallic) ==> r == Some(PaletteError::Metallic)
            &&& unit(m.roughness) && unit(m.metallic) && !unit(m.transmission) ==> r == Some(
                PaletteError::Transmission,
            )
            &&& r == Some(PaletteError::Full) ==> len >= 255
        }),
        add_material_error(Material { color, volume, ..m }, len) == add_material_error(m, len),
{
}

/// The materials of a palette holding `mats` after `add_material(m)`.
pub open spec fn palette_add(mats: Seq<Material>, m: Material) -> Seq<Material> {
    if add_material_error(m, mats.len() as int) is None {
        mats.push(m)
    } else {
        mats
    }
}

/// The materials of a new palette after `add_material` was called with each of `ms` in turn.
pub open spec fn palette_after(ms: Seq<Material>) -> Seq<Material>
    decreases ms.len(),
{
    if ms.len() == 0 {
        Seq::empty()
    } else {
        palette_add(palette_after(ms.drop_last()), ms.last())
    }
}

/// What a palette held after the first `k` calls is the start of what it holds after all of them.
proof fn lemma_palette_after_prefix(ms: Seq<Material>, k: int)
    requires
        0 <= k <= ms.len(),
    ensures
        palette_after(ms.take(k)).len() <= palette_after(ms).len(),
        palette_after(ms).take(palette_after(ms.take(k)).len() as int) == palette_after(ms.take(k)),
    decreases ms.len(),
{
    if k == ms.len() {
        assert(ms.take(k) =~= ms);
        assert(palette_after(ms).take(palette_after(ms).len() as int) =~= palette_after(ms));
    } else {
        let d = ms.drop_last();
        assert(ms.take(k) =~= d.take(k));
        lemma_palette_after_prefix(d, k);
        let before = palette_after(d);
        let n = palette_after(d.take(k)).len() as int;
        if add_material_error(ms.last(), before.len() as int) is None {
            assert(before.push(ms.last()).take(n) =~= before.take(n));
        }
    }
}

/// A palette that starts empty and is given materials one call of `add_material` at a time:
/// it never holds more than 255 materials; each accepted material sits at the index its code
/// names (the number of materials held before the call), which grows with every accepted call,
/// so the codes handed out are distinct and follow the order of the calls; and once it holds
/// 255 materials, every further material is refused and leaves it as it is.
pub proof fn lemma_palette_from_empty(ms: Seq<Material>)
    ensures
        forall|k: int|
            0 <= k <= ms.len() ==> #[trigger] palette_after(ms.take(k)).len() <= 255,
        forall|k: int|
            0 <= k < ms.len() && add_material_error(ms[k], palette_after(ms.take(k)).len() as int) is None
                ==> palette_after(ms)[#[trigger] palette_after(ms.take(k)).len() as int] == ms[k],
        forall|k: int, j: int|
            0 <= k < j <= ms.len() && add_material_error(ms[k], palette_after(ms.take(k)).len() as int)
                is None ==> #[trigger] palette_after(ms.take(k)).len() < #[trigger] palette_after(
                ms.take(j),
            ).len(),
        forall|m: Material|
            palette_after(ms).len() == 255 ==> (#[trigger] add_material_error(m, 255)) is Some
                && palette_add(palette_after(ms), m) == palette_after(ms),
{
    assert forall|k: int| 0 <= k <= ms.len() implies #[trigger] palette_after(ms.take(k)).len()
        <= 255 by {
        lemma_palette_bounded(ms.take(k));
    }
    assert forall|k: int|
        0 <= k < ms.len() && add_material_error(ms[k], palette_after(ms.take(k)).len() as int)
            is None implies palette_after(ms)[#[trigger] palette_after(ms.take(k)).len() as int]
        == ms[k] by {
        let t = ms.take(k + 1);
        assert(t.drop_last() =~= ms.take(k));
        lemma_palette_after_prefix(ms, k + 1);
        let n = palette_after(ms.take(k)).len() as int;
        assert(palette_after(t) == palette_after(ms.take(k)).push(ms[k]));
        assert(palette_after(ms).take(n + 1)[n] == palette_after(ms)[n]);
    }
    assert forall|k: int, j: int|
        0 <= k < j <= ms.len() && add_material_error(ms[k], palette_after(ms.take(k)).len() as int)
            is None implies #[trigger] palette_after(ms.take(k)).len() < #[trigger] palette_after(
            ms.take(j),
        ).len() by {
        let t = ms.take(k + 1);
        assert(t.drop_last() =~= ms.take(k));
        assert(palette_after(t).len() == palette_after(ms.take(k)).len() + 1);
        let tj = ms.take(j);
        assert(tj.take(k + 1) =~= t);
        lemma_palette_after_prefix(tj, k + 1);
    }
}

/// No call of `add_material` takes a palette that started empty past 255 materials.
proof fn lemma_palette_bounded(ms: Seq<Material>)
    ensures
        palette_after(ms).len() <= 255,
    decreases ms.len(),
{
    if ms.len() > 0 {
        lemma_palette_bounded(ms.drop_last());
    }
}

impl Palette {
    /// An empty palette with handle `id`.
    pub fn new(id: PaletteId) -> (p: Palette)
        ensures
            p.id == id,
            p.materials@.len() == 0,
    {
        Palette { id, materials: Vec::new() }
    }

    /// The number of materials; `add_material` never takes it past 255.
    pub fn len(&self) -> (n: usize)
        ensures
            n == self.materials@.len(),
    {
        self.materials.len()
    }

    /// Checks `material` (roughness, metallic and transmission in `[0.0, 1.0]`, ior 0.0 or
    /// finite and `>= 1.0`, emissive finite and `>= 0.0`, in that order) and appends it, unless
    /// the palette already holds 255 materials. Returns the material's code (its index plus one).
    pub fn add_material(&mut self, material: Material) -> (r: Result<MaterialRef, PaletteError>)
        ensures
            final(self).id == old(self).id,
            final(self).materials@ == palette_add(old(self).materials@, material),
            match add_material_error(material, old(self).materials@.len() as int) {
                Some(e) => r == Err::<MaterialRef, _>(e) && final(self).materials@ == old(self).materials@,
                None => r matches Ok(m) && m.palette == old(self).id && m.code.spec_index() == old(
                    self,
                ).materials@.len() && final(self).materials@ == old(self).materials@.push(material),
            },
    {
        let in_unit = |b: u64| -> (ok: bool)
            ensures
                ok == unit_interval_bits(b),
            { b <= 0x3FF0_0000_0000_0000 || b == 0x8000_0000_0000_0000 };
        if !in_unit(material.roughness) {
            return Err(PaletteError::Roughness);
        }
        if !in_unit(material.metallic) {
            return Err(PaletteError::Metallic);
        }
        if !in_unit(material.transmission) {
            return Err(PaletteError::Transmission);
        }
        let ior = material.ior;
        if !(ior == 0 || ior == 0x8000_0000_0000_0000 || (0x3FF0_0000_0000_0000 <= ior && ior
            < 0x7FF0_0000_0000_0000)) {
            return Err(PaletteError::Ior);
        }
        let e = material.emissive;
        if !(e < 0x7FF0_0000_0000_0000 || e == 0x8000_0000_0000_0000) {
            return Err(PaletteError::Emissive);
        }
        let index = self.materials.len();
        if index >= 255 {
            return Err(PaletteError::Full);
        }
        self.materials.push(material);
        Ok(MaterialRef { palette: self.id, code: MaterialCode::new(index) })
    }
}

} // verus!
