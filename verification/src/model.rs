//! Voxel models: a grid of at most 256 voxels per side, each empty or holding a material of the
//! model's palette, edited by points, boxes, ellipsoids, clipping, mirroring and inclusion.
use vstd::prelude::*;

use crate::math::{max_int, min_int, sat_sub, Int3};
use crate::palette::{MaterialCode, MaterialRef, PaletteId};

verus! {

/// The size of a model's grid along x, y and z.
#[derive(Copy, Clone, PartialEq, Eq, Structural, Debug)]
pub struct Dimensions {
    pub x: usize,
    pub y: usize,
    pub z: usize,
}

/// Which dimension was refused.
#[derive(Copy, Clone, PartialEq, Eq, Structural, Debug)]
pub enum DimensionError {
    X,
    Y,
    Z,
}

/// Every side is between 1 and 256 voxels.
pub open spec fn dims_ok(d: Dimensions) -> bool {
    &&& 1 <= d.x <= 256
    &&& 1 <= d.y <= 256
    &&& 1 <= d.z <= 256
}

/// Whether `(x, y, z)` lies inside a grid of size `d`.
pub open spec fn in_dims(d: Dimensions, x: int, y: int, z: int) -> bool {
    0 <= x < d.x && 0 <= y < d.y && 0 <= z < d.z
}

impl Dimensions {
    /// Dimensions `(x, y, z)`; each must be between 1 and 256 inclusive, checked x, then y, then z.
    pub fn new(x: usize, y: usize, z: usize) -> (r: Result<Dimensions, DimensionError>)
        ensures
            r == if !(1 <= x <= 256) {
                Err(DimensionError::X)
            } else if !(1 <= y <= 256) {
                Err(DimensionError::Y)
            } else if !(1 <= z <= 256) {
                Err(DimensionError::Z)
            } else {
                Ok(Dimensions { x, y, z })
            },
    {
        if !(1 <= x && x <= 256) {
            return Err(DimensionError::X);
        }
        if !(1 <= y && y <= 256) {
            return Err(DimensionError::Y);
        }
        if !(1 <= z && z <= 256) {
            return Err(DimensionError::Z);
        }
        Ok(Dimensions { x, y, z })
    }

    /// The largest coordinates inside the grid.
    pub fn last_index(&self) -> (r: Int3)
        requires
            dims_ok(*self),
        ensures
            r.x == self.x - 1,
            r.y == self.y - 1,
            r.z == self.z - 1,
    {
        Int3 { x: self.x - 1, y: self.y - 1, z: self.z - 1 }
    }

    /// The dimensions with the extent `e`.
    pub fn from_extent(e: Int3) -> (r: Dimensions)
        ensures
            r == (Dimensions { x: e.x, y: e.y, z: e.z }),
    {
        Dimensions { x: e.x, y: e.y, z: e.z }
    }

    /// Whether `a` lies inside the grid.
    pub fn contains(&self, a: Int3) -> (r: bool)
        ensures
            r == in_dims(*self, a.x as int, a.y as int, a.z as int),
    {
        a.x < self.x && a.y < self.y && a.z < self.z
    }
}

/// Where a model's local origin sits.
#[derive(Copy, Clone, PartialEq, Eq, Structural, Debug)]
pub enum Pivot {
    Corner,
    Center,
    BottomCenter,
}

/// A preset pivot, or an explicit offset (bit patterns of the three `f64` coordinates).
#[derive(Copy, Clone, PartialEq, Eq, Structural, Debug)]
pub enum PivotChoice {
    Preset(Pivot),
    Offset { x: u64, y: u64, z: u64 },
}

/// Why a model edit was refused.
#[derive(Copy, Clone, PartialEq, Eq, Structural, Debug)]
pub enum ModelError {
    /// A position lies outside the grid.
    OutOfBounds { pos: Int3 },
    /// The material belongs to another palette.
    ForeignMaterial,
    /// A radius is 0.
    ZeroRadius,
    /// The embedded model uses another palette.
    DifferentPalettes,
}

/// A grid of voxels, each empty or holding the code of a material of `palette`.
pub struct Model {
    pub dims: Dimensions,
    pub zstride: usize,
    pub data: Vec<Option<MaterialCode>>,
    pub pivot: PivotChoice,
    pub palette: PaletteId,
}

/// Index of `(x, y, z)` in the data of a grid of size `d`.
pub open spec fn grid_index(d: Dimensions, x: int, y: int, z: int) -> int {
    x + y * d.x + z * (d.x * d.y)
}

/// The number of voxels of a grid of size `d`.
pub open spec fn grid_len(d: Dimensions) -> int {
    d.x * d.y * d.z
}

/// `(x2, y2, z2)` comes before `(x, y, z)` in storage order (x fastest, then y, then z).
pub open spec fn before3(x2: int, y2: int, z2: int, x: int, y: int, z: int) -> bool {
    z2 < z || (z2 == z && (y2 < y || (y2 == y && x2 < x)))
}

/// Whether `(x, y, z)` lies in the box spanned by the corners `a` and `b`.
pub open spec fn in_box(a: Int3, b: Int3, x: int, y: int, z: int) -> bool {
    &&& min_int(a.x as int, b.x as int) <= x <= max_int(a.x as int, b.x as int)
    &&& min_int(a.y as int, b.y as int) <= y <= max_int(a.y as int, b.y as int)
    &&& min_int(a.z as int, b.z as int) <= z <= max_int(a.z as int, b.z as int)
}

/// The code that a voxel set to `material` holds.
pub open spec fn code_of(material: Option<MaterialRef>) -> Option<MaterialCode> {
    match material {
        Some(m) => Some(m.code),
        None => None,
    }
}

proof fn lemma_grid_index(d: Dimensions, x: int, y: int, z: int)
    requires
        dims_ok(d),
        in_dims(d, x, y, z),
    ensures
        0 <= grid_index(d, x, y, z) < grid_len(d),
        grid_len(d) <= 256 * 256 * 256,
        d.x * d.y <= 65536,
{
    let (dx, dy, dz) = (d.x as int, d.y as int, d.z as int);
    assert(0 <= y * dx && y * dx + dx <= dx * dy) by (nonlinear_arith)
        requires
            0 <= y < dy,
            0 <= dx,
    ;
    assert(0 <= z * (dx * dy) && z * (dx * dy) + dx * dy <= dx * dy * dz) by (nonlinear_arith)
        requires
            0 <= z < dz,
            0 <= dx,
            0 <= dy,
    ;
    assert(dx * dy <= 65536) by (nonlinear_arith)
        requires
            1 <= dx <= 256,
            1 <= dy <= 256,
    ;
    assert(dx * dy * dz <= 256 * 256 * 256) by (nonlinear_arith)
        requires
            1 <= dx <= 256,
            1 <= dy <= 256,
            1 <= dz <= 256,
    ;
}

proof fn lemma_grid_index_injective(d: Dimensions, x: int, y: int, z: int, x2: int, y2: int, z2: int)
    requires
        dims_ok(d),
        in_dims(d, x, y, z),
        in_dims(d, x2, y2, z2),
        grid_index(d, x, y, z) == grid_index(d, x2, y2, z2),
    ensures
        x == x2 && y == y2 && z == z2,
{
    let (dx, dy) = (d.x as int, d.y as int);
    let a = x + y * dx;
    let b = x2 + y2 * dx;
    assert(0 <= a < dx * dy && 0 <= b < dx * dy) by (nonlinear_arith)
        requires
            a == x + y * dx,
            b == x2 + y2 * dx,
            0 <= x < dx,
            0 <= x2 < dx,
            0 <= y < dy,
            0 <= y2 < dy,
    ;
    assert(z == z2) by (nonlinear_arith)
        requires
            a + z * (dx * dy) == b + z2 * (dx * dy),
            0 <= a < dx * dy,
            0 <= b < dx * dy,
            0 <= z,
            0 <= z2,
    ;
    assert(y == y2) by (nonlinear_arith)
        requires
            x + y * dx == x2 + y2 * dx,
            0 <= x < dx,
            0 <= x2 < dx,
            0 <= y,
            0 <= y2,
    ;
}

/// `b` is `a` with voxel `pos` holding `code` and every other voxel unchanged.
pub open spec fn stored(a: Model, b: Model, pos: Int3, code: Option<MaterialCode>) -> bool {
    forall|x: int, y: int, z: int|
        in_dims(a.dims, x, y, z) ==> #[trigger] b.voxel(x, y, z) == if x == pos.x && y == pos.y && z == pos.z {
            code
        } else {
            a.voxel(x, y, z)
        }
}

/// Reading a voxel after storing a code in it gives that code back, and storing leaves every
/// other voxel as it was.
pub proof fn lemma_read_after_store(a: Model, b: Model, pos: Int3, code: Option<MaterialCode>, other: Int3)
    requires
        stored(a, b, pos, code),
        in_dims(a.dims, pos.x as int, pos.y as int, pos.z as int),
        in_dims(a.dims, other.x as int, other.y as int, other.z as int),
    ensures
        b.voxel(pos.x as int, pos.y as int, pos.z as int) == code,
        other != pos ==> b.voxel(other.x as int, other.y as int, other.z as int) == a.voxel(
            other.x as int,
            other.y as int,
            other.z as int,
        ),
{
    assert(b.voxel(pos.x as int, pos.y as int, pos.z as int) == code);
    assert(b.voxel(other.x as int, other.y as int, other.z as int) == if other.x == pos.x && other.y == pos.y
        && other.z == pos.z {
        code
    } else {
        a.voxel(other.x as int, other.y as int, other.z as int)
    });
}

impl Model {
    /// The grid has valid dimensions and one entry per voxel.
    pub open spec fn wf(&self) -> bool {
        &&& dims_ok(self.dims)
        &&& self.zstride == self.dims.x * self.dims.y
        &&& self.data@.len() == grid_len(self.dims)
    }

    /// The content of voxel `(x, y, z)`.
    pub open spec fn voxel(&self, x: int, y: int, z: int) -> Option<MaterialCode> {
        self.data@[grid_index(self.dims, x, y, z)]
    }

    /// An empty model of size `dims` using `palette`.
    pub fn new(dims: Dimensions, palette: PaletteId, pivot: PivotChoice) -> (m: Model)
        requires
            dims_ok(dims),
        ensures
            m.wf(),
            m.dims == dims,
            m.palette == palette,
            m.pivot == pivot,
            forall|x: int, y: int, z: int| in_dims(dims, x, y, z) ==> (#[trigger] m.voxel(x, y, z)) is None,
    {
        proof {
            lemma_grid_index(dims, 0, 0, 0);
        }
        let n = dims.x * dims.y * dims.z;
        let mut data: Vec<Option<MaterialCode>> = Vec::new();
        while data.len() < n
            invariant
                data@.len() <= n,
                forall|k: int| 0 <= k < data@.len() ==> (#[trigger] data@[k]) is None,
            decreases n - data@.len(),
        {
            data.push(None);
        }
        let m = Model { dims, zstride: dims.x * dims.y, data, pivot, palette };
        proof {
            assert forall|x: int, y: int, z: int| in_dims(dims, x, y, z) implies (#[trigger] m.voxel(x, y, z)) is None by {
                lemma_grid_index(dims, x, y, z);
            }
        }
        m
    }

    /// A copy of the model.
    pub fn copy(&self) -> (m: Model)
        requires
            self.wf(),
        ensures
            m.wf(),
            m.dims == self.dims,
            m.zstride == self.zstride,
            m.data@ == self.data@,
            m.pivot == self.pivot,
            m.palette == self.palette,
    {
        let mut data: Vec<Option<MaterialCode>> = Vec::new();
        let mut k: usize = 0;
        while k < self.data.len()
            invariant
                k <= self.data@.len(),
                data@ == self.data@.take(k as int),
            decreases self.data@.len() - k,
        {
            data.push(self.data[k]);
            k = k + 1;
            assert(data@ =~= self.data@.take(k as int));
        }
        assert(self.data@.take(self.data@.len() as int) =~= self.data@);
        Model { dims: self.dims, zstride: self.zstride, data, pivot: self.pivot, palette: self.palette }
    }

    /// `Ok` when `a` lies inside the grid.
    pub fn check_contains(&self, a: Int3) -> (r: Result<(), ModelError>)
        ensures
            r == if in_dims(self.dims, a.x as int, a.y as int, a.z as int) {
                Ok::<(), ModelError>(())
            } else {
                Err(ModelError::OutOfBounds { pos: a })
            },
    {
        if !self.dims.contains(a) {
            return Err(ModelError::OutOfBounds { pos: a });
        }
        Ok(())
    }

    /// The code a voxel set to `material` holds, when `material` is empty or of this palette.
    pub fn get_material_code(&self, material: Option<MaterialRef>) -> (r: Result<Option<MaterialCode>, ModelError>)
        ensures
            r == match material {
                Some(m) => if m.palette == self.palette {
                    Ok(Some(m.code))
                } else {
                    Err(ModelError::ForeignMaterial)
                },
                None => Ok::<_, ModelError>(None),
            },
    {
        match material {
            None => Ok(None),
            Some(m) => if m.palette.id == self.palette.id {
                Ok(Some(m.code))
            } else {
                Err(ModelError::ForeignMaterial)
            },
        }
    }

    /// The content of the voxel at `pos`.
    pub fn get(&self, pos: Int3) -> (r: Option<MaterialCode>)
        requires
            self.wf(),
            in_dims(self.dims, pos.x as int, pos.y as int, pos.z as int),
        ensures
            r == self.voxel(pos.x as int, pos.y as int, pos.z as int),
    {
        proof {
            lemma_grid_index(self.dims, pos.x as int, pos.y as int, pos.z as int);
        }
        self.data[pos.x + pos.y * self.dims.x + pos.z * self.zstride]
    }

    /// Sets the voxel at `pos` to `code`, leaving every other voxel as it was.
    pub fn set(&mut self, pos: Int3, code: Option<MaterialCode>)
        requires
            old(self).wf(),
            in_dims(old(self).dims, pos.x as int, pos.y as int, pos.z as int),
        ensures
            final(self).wf(),
            final(self).dims == old(self).dims,
            final(self).palette == old(self).palette,
            final(self).pivot == old(self).pivot,
            stored(*old(self), *final(self), pos, code),
    {
        proof {
            lemma_grid_index(self.dims, pos.x as int, pos.y as int, pos.z as int);
        }
        let i = pos.x + pos.y * self.dims.x + pos.z * self.zstride;
        self.data.set(i, code);
        proof {
            assert forall|x: int, y: int, z: int| in_dims(old(self).dims, x, y, z) implies #[trigger] self.voxel(
                x,
                y,
                z,
            ) == if x == pos.x && y == pos.y && z == pos.z {
                code
            } else {
                old(self).voxel(x, y, z)
            } by {
                lemma_grid_index(self.dims, x, y, z);
                if grid_index(self.dims, x, y, z) == i {
                    lemma_grid_index_injective(self.dims, x, y, z, pos.x as int, pos.y as int, pos.z as int);
                }
            }
        }
    }

    /// Sets voxel `p` to `material` (empty when `None`). Fails, changing nothing, when `p` is
    /// outside the grid or the material is of another palette.
    pub fn put(&mut self, material: Option<MaterialRef>, p: Int3) -> (r: Result<(), ModelError>)
        requires
            old(self).wf(),
        ensures
            final(self).wf(),
            final(self).dims == old(self).dims,
            final(self).palette == old(self).palette,
            final(self).pivot == old(self).pivot,
            !in_dims(old(self).dims, p.x as int, p.y as int, p.z as int) ==> r == Err::<(), _>(
                ModelError::OutOfBounds { pos: p },
            ),
            in_dims(old(self).dims, p.x as int, p.y as int, p.z as int) && (material matches Some(m)
                && m.palette != old(self).palette) ==> r == Err::<(), _>(ModelError::ForeignMaterial),
            r is Err ==> final(self).data@ == old(self).data@,
            r is Ok <==> in_dims(old(self).dims, p.x as int, p.y as int, p.z as int) && !(material matches Some(m)
                && m.palette != old(self).palette),
            r is Ok ==> stored(*old(self), *final(self), p, code_of(material)),
    {
        if let Err(e) = self.check_contains(p) {
            return Err(e);
        }
        let code = match self.get_material_code(material) {
            Ok(c) => c,
            Err(e) => return Err(e),
        };
        self.set(p, code);
        Ok(())
    }
}

/// Coordinate `c` of an axis of length `n`, mirrored when `flip`.
pub open spec fn mirror(c: int, n: int, flip: bool) -> int {
    if flip {
        n - 1 - c
    } else {
        c
    }
}

/// `b` is `a` mirrored along the axes selected by `fx`, `fy`, `fz`: same size, palette and
/// pivot, and each voxel holds the content of its mirror image in `a`.
pub open spec fn mirrored(a: Model, b: Model, fx: bool, fy: bool, fz: bool) -> bool {
    &&& b.wf()
    &&& b.dims == a.dims
    &&& b.palette == a.palette
    &&& b.pivot == a.pivot
    &&& forall|x: int, y: int, z: int|
        in_dims(a.dims, x, y, z) ==> #[trigger] b.voxel(x, y, z) == a.voxel(
            mirror(x, a.dims.x as int, fx),
            mirror(y, a.dims.y as int, fy),
            mirror(z, a.dims.z as int, fz),
        )
}

/// `a` and `b` hold the same voxels.
pub open spec fn same_voxels(a: Model, b: Model) -> bool {
    &&& a.dims == b.dims
    &&& forall|x: int, y: int, z: int| in_dims(a.dims, x, y, z) ==> #[trigger] a.voxel(x, y, z) == b.voxel(x, y, z)
}

/// Flipping a model twice along the same axes gives back the model it started from.
pub proof fn lemma_flip_twice(a: Model, b: Model, c: Model, fx: bool, fy: bool, fz: bool)
    requires
        a.wf(),
        mirrored(a, b, fx, fy, fz),
        mirrored(b, c, fx, fy, fz),
    ensures
        same_voxels(c, a),
        c.palette == a.palette,
        c.pivot == a.pivot,
{
    assert forall|x: int, y: int, z: int| in_dims(c.dims, x, y, z) implies #[trigger] c.voxel(x, y, z) == a.voxel(
        x,
        y,
        z,
    ) by {
        let mx = mirror(x, a.dims.x as int, fx);
        let my = mirror(y, a.dims.y as int, fy);
        let mz = mirror(z, a.dims.z as int, fz);
        assert(in_dims(b.dims, mx, my, mz));
        assert(b.voxel(mx, my, mz) == a.voxel(
            mirror(mx, a.dims.x as int, fx),
            mirror(my, a.dims.y as int, fy),
            mirror(mz, a.dims.z as int, fz),
        ));
    }
}

impl Model {
    /// The grid data with the voxels mirrored along the axes selected by `fx`, `fy`, `fz`.
    fn mirrored_data(&self, fx: bool, fy: bool, fz: bool) -> (data: Vec<Option<MaterialCode>>)
        requires
            self.wf(),
        ensures
            data@.len() == grid_len(self.dims),
            forall|x: int, y: int, z: int|
                in_dims(self.dims, x, y, z) ==> #[trigger] data@[grid_index(self.dims, x, y, z)] == self.voxel(
                    mirror(x, self.dims.x as int, fx),
                    mirror(y, self.dims.y as int, fy),
                    mirror(z, self.dims.z as int, fz),
                ),
    {
        let d = self.dims;
        let ghost dx = d.x as int;
        let ghost dy = d.y as int;
        let mut data: Vec<Option<MaterialCode>> = Vec::new();
        let mut z: usize = 0;
        while z < d.z
            invariant
                self.wf(),
                d == self.dims,
                dx == d.x,
                dy == d.y,
                z <= d.z,
                data@.len() == z * (dx * dy),
                forall|x2: int, y2: int, z2: int|
                    in_dims(d, x2, y2, z2) && z2 < z ==> #[trigger] data@[grid_index(d, x2, y2, z2)] == self.voxel(
                        mirror(x2, dx, fx),
                        mirror(y2, dy, fy),
                        mirror(z2, d.z as int, fz),
                    ),
            decreases d.z - z,
        {
            let mut y: usize = 0;
            while y < d.y
                invariant
                    self.wf(),
                    d == self.dims,
                    dx == d.x,
                    dy == d.y,
                    z < d.z,
                    y <= d.y,
                    data@.len() == y * dx + z * (dx * dy),
                    forall|x2: int, y2: int, z2: int|
                        in_dims(d, x2, y2, z2) && before3(x2, y2, z2, 0, y as int, z as int) ==> #[trigger] data@[grid_index(
                            d,
                            x2,
                            y2,
                            z2,
                        )] == self.voxel(mirror(x2, dx, fx), mirror(y2, dy, fy), mirror(z2, d.z as int, fz)),
                decreases d.y - y,
            {
                let mut x: usize = 0;
                while x < d.x
                    invariant
                        self.wf(),
                        d == self.dims,
                        dx == d.x,
                        dy == d.y,
                        z < d.z,
                        y < d.y,
                        x <= d.x,
                        data@.len() == x + y * dx + z * (dx * dy),
                        forall|x2: int, y2: int, z2: int|
                            in_dims(d, x2, y2, z2) && before3(x2, y2, z2, x as int, y as int, z as int)
                                ==> #[trigger] data@[grid_index(d, x2, y2, z2)] == self.voxel(
                                mirror(x2, dx, fx),
                                mirror(y2, dy, fy),
                                mirror(z2, d.z as int, fz),
                            ),
                    decreases d.x - x,
                {
                    let sx = if fx { d.x - 1 - x } else { x };
                    let sy = if fy { d.y - 1 - y } else { y };
                    let sz = if fz { d.z - 1 - z } else { z };
                    let v = self.get(Int3 { x: sx, y: sy, z: sz });
                    proof {
                        lemma_grid_index(d, x as int, y as int, z as int);
                        assert forall|x2: int, y2: int, z2: int|
                            in_dims(d, x2, y2, z2) && before3(x2, y2, z2, x as int, y as int, z as int)
                                implies grid_index(d, x2, y2, z2) < grid_index(d, x as int, y as int, z as int) by {
                            lemma_grid_index(d, x2, y2, z2);
                            assert(grid_index(d, x2, y2, z2) < grid_index(d, x as int, y as int, z as int)) by (nonlinear_arith)
                                requires
                                    before3(x2, y2, z2, x as int, y as int, z as int),
                                    0 <= x2 < dx,
                                    0 <= y2 < dy,
                                    0 <= x < dx,
                                    0 <= y < dy,
                                    dx == d.x,
                                    dy == d.y,
                            ;
                        }
                    }
                    let ghost prev = data@;
                    data.push(v);
                    proof {
                        assert forall|x2: int, y2: int, z2: int|
                            in_dims(d, x2, y2, z2) && before3(x2, y2, z2, x + 1, y as int, z as int)
                                implies #[trigger] data@[grid_index(d, x2, y2, z2)] == self.voxel(
                                mirror(x2, dx, fx),
                                mirror(y2, dy, fy),
                                mirror(z2, d.z as int, fz),
                            ) by {
                            if before3(x2, y2, z2, x as int, y as int, z as int) {
                                assert(data@[grid_index(d, x2, y2, z2)] == prev[grid_index(d, x2, y2, z2)]);
                            } else {
                                assert(x2 == x && y2 == y && z2 == z);
                            }
                        }
                    }
                    x = x + 1;
                }
                assert(dx + y * dx == (y + 1) * dx) by (nonlinear_arith);
                y = y + 1;
            }
            assert(dy * dx + z * (dx * dy) == (z + 1) * (dx * dy)) by (nonlinear_arith);
            z = z + 1;
        }
        assert(d.z * (dx * dy) == grid_len(d)) by (nonlinear_arith)
            requires
                dx == d.x,
                dy == d.y,
        ;
        data
    }

    /// Mirrors the model along x: voxel `(x, y, z)` takes the content of `(dx - 1 - x, y, z)`.
    pub fn flip_x(&mut self)
        requires
            old(self).wf(),
        ensures
            mirrored(*old(self), *final(self), true, false, false),
    {
        self.data = self.mirrored_data(true, false, false);
    }

    /// Mirrors the model along y: voxel `(x, y, z)` takes the content of `(x, dy - 1 - y, z)`.
    pub fn flip_y(&mut self)
        requires
            old(self).wf(),
        ensures
            mirrored(*old(self), *final(self), false, true, false),
    {
        self.data = self.mirrored_data(false, true, false);
    }

    /// Mirrors the model along z: voxel `(x, y, z)` takes the content of `(x, y, dz - 1 - z)`.
    pub fn flip_z(&mut self)
        requires
            old(self).wf(),
        ensures
            mirrored(*old(self), *final(self), false, false, true),
    {
        self.data = self.mirrored_data(false, false, true);
    }
}

/// Whether `(x, y, z)` lies in the box `[lo, hi]`.
pub open spec fn in_span(lo: Int3, hi: Int3, x: int, y: int, z: int) -> bool {
    lo.x <= x <= hi.x && lo.y <= y <= hi.y && lo.z <= z <= hi.z
}

/// The point `(x, y, z)`.
pub open spec fn pt(x: int, y: int, z: int) -> Int3 {
    Int3 { x: x as usize, y: y as usize, z: z as usize }
}

impl Model {
    /// Visits the box `[lo, hi]` in storage order and sets each voxel to `c` where `paint`
    /// answers `Some(c)` for it, leaving it as it is where `paint` answers `None`.
    fn paint_box(&mut self, lo: Int3, hi: Int3, paint: impl Fn(Int3) -> Option<Option<MaterialCode>>)
        requires
            old(self).wf(),
            lo.x <= hi.x,
            lo.y <= hi.y,
            lo.z <= hi.z,
            in_dims(old(self).dims, hi.x as int, hi.y as int, hi.z as int),
            forall|p: Int3| in_span(lo, hi, p.x as int, p.y as int, p.z as int) ==> #[trigger] paint.requires((p,)),
        ensures
            final(self).wf(),
            final(self).dims == old(self).dims,
            final(self).palette == old(self).palette,
            final(self).pivot == old(self).pivot,
            forall|x: int, y: int, z: int|
                in_dims(old(self).dims, x, y, z) ==> if in_span(lo, hi, x, y, z) {
                    exists|c: Option<Option<MaterialCode>>|
                        paint.ensures((pt(x, y, z),), c) && #[trigger] final(self).voxel(x, y, z) == match c {
                            Some(v) => v,
                            None => old(self).voxel(x, y, z),
                        }
                } else {
                    final(self).voxel(x, y, z) == old(self).voxel(x, y, z)
                },
    {
        let ghost orig = *old(self);
        let mut z = lo.z;
        while z <= hi.z
            invariant
                self.wf(),
                self.dims == orig.dims,
                self.palette == orig.palette,
                self.pivot == orig.pivot,
                orig.wf(),
                lo.x <= hi.x,
                lo.y <= hi.y,
                lo.z <= z <= hi.z + 1,
                in_dims(orig.dims, hi.x as int, hi.y as int, hi.z as int),
                forall|p: Int3| in_span(lo, hi, p.x as int, p.y as int, p.z as int) ==> #[trigger] paint.requires((p,)),
                forall|x: int, y: int, z2: int|
                    in_dims(orig.dims, x, y, z2) ==> if in_span(lo, hi, x, y, z2) && z2 < z {
                        exists|c: Option<Option<MaterialCode>>|
                            paint.ensures((pt(x, y, z2),), c) && #[trigger] self.voxel(x, y, z2) == match c {
                                Some(v) => v,
                                None => orig.voxel(x, y, z2),
                            }
                    } else {
                        self.voxel(x, y, z2) == orig.voxel(x, y, z2)
                    },
            decreases hi.z + 1 - z,
        {
            let mut y = lo.y;
            while y <= hi.y
                invariant
                    self.wf(),
                    self.dims == orig.dims,
                    self.palette == orig.palette,
                    self.pivot == orig.pivot,
                    orig.wf(),
                    lo.x <= hi.x,
                    lo.y <= y <= hi.y + 1,
                    lo.z <= z <= hi.z,
                    in_dims(orig.dims, hi.x as int, hi.y as int, hi.z as int),
                    forall|p: Int3| in_span(lo, hi, p.x as int, p.y as int, p.z as int) ==> #[trigger] paint.requires((p,)),
                    forall|x: int, y2: int, z2: int|
                        in_dims(orig.dims, x, y2, z2) ==> if in_span(lo, hi, x, y2, z2) && before3(
                            x,
                            y2,
                            z2,
                            lo.x as int,
                            y as int,
                            z as int,
                        ) {
                            exists|c: Option<Option<MaterialCode>>|
                                paint.ensures((pt(x, y2, z2),), c) && #[trigger] self.voxel(x, y2, z2) == match c {
                                    Some(v) => v,
                                    None => orig.voxel(x, y2, z2),
                                }
                        } else {
                            self.voxel(x, y2, z2) == orig.voxel(x, y2, z2)
                        },
                decreases hi.y + 1 - y,
            {
                let mut x = lo.x;
                while x <= hi.x
                    invariant
                        self.wf(),
                        self.dims == orig.dims,
                        self.palette == orig.palette,
                        self.pivot == orig.pivot,
                        orig.wf(),
                        lo.x <= x <= hi.x + 1,
                        lo.y <= y <= hi.y,
                        lo.z <= z <= hi.z,
                        in_dims(orig.dims, hi.x as int, hi.y as int, hi.z as int),
                        forall|p: Int3| in_span(lo, hi, p.x as int, p.y as int, p.z as int) ==> #[trigger] paint.requires((p,)),
                        forall|x2: int, y2: int, z2: int|
                            in_dims(orig.dims, x2, y2, z2) ==> if in_span(lo, hi, x2, y2, z2) && before3(
                                x2,
                                y2,
                                z2,
                                x as int,
                                y as int,
                                z as int,
                            ) {
                                exists|c: Option<Option<MaterialCode>>|
                                    paint.ensures((pt(x2, y2, z2),), c) && #[trigger] self.voxel(x2, y2, z2) == match c {
                                        Some(v) => v,
                                        None => orig.voxel(x2, y2, z2),
                                    }
                            } else {
                                self.voxel(x2, y2, z2) == orig.voxel(x2, y2, z2)
                            },
                    decreases hi.x + 1 - x,
                {
                    let p = Int3 { x, y, z };
                    let hit = paint(p);
                    let ghost prev = *self;
                    if let Some(v) = hit {
                        self.set(p, v);
                    }
                    proof {
                        assert forall|x2: int, y2: int, z2: int| in_dims(orig.dims, x2, y2, z2) implies if in_span(
                            lo,
                            hi,
                            x2,
                            y2,
                            z2,
                        ) && before3(x2, y2, z2, x + 1, y as int, z as int) {
                            exists|c: Option<Option<MaterialCode>>|
                                paint.ensures((pt(x2, y2, z2),), c) && #[trigger] self.voxel(x2, y2, z2) == match c {
                                    Some(v) => v,
                                    None => orig.voxel(x2, y2, z2),
                                }
                        } else {
                            self.voxel(x2, y2, z2) == orig.voxel(x2, y2, z2)
                        } by {
                            if x2 == x && y2 == y && z2 == z {
                                assert(pt(x2, y2, z2) == p);
                                assert(prev.voxel(x2, y2, z2) == orig.voxel(x2, y2, z2));
                                assert(paint.ensures((pt(x2, y2, z2),), hit));
                            } else {
                                assert(self.voxel(x2, y2, z2) == prev.voxel(x2, y2, z2));
                            }
                        }
                    }
                    x = x + 1;
                }
                y = y + 1;
            }
            z = z + 1;
        }
    }

    /// Sets every voxel of the box spanned by corners `p1` and `p2` to `material`. Fails,
    /// changing nothing, when a corner is outside the grid (`p1` checked first) or the material
    /// is of another palette.
    pub fn aabb(&mut self, material: Option<MaterialRef>, p1: Int3, p2: Int3) -> (r: Result<(), ModelError>)
        requires
            old(self).wf(),
        ensures
            final(self).wf(),
            final(self).dims == old(self).dims,
            final(self).palette == old(self).palette,
            final(self).pivot == old(self).pivot,
            r == if !in_dims(old(self).dims, p1.x as int, p1.y as int, p1.z as int) {
                Err(ModelError::OutOfBounds { pos: p1 })
            } else if !in_dims(old(self).dims, p2.x as int, p2.y as int, p2.z as int) {
                Err(ModelError::OutOfBounds { pos: p2 })
            } else if material matches Some(m) && m.palette != old(self).palette {
                Err(ModelError::ForeignMaterial)
            } else {
                Ok::<(), ModelError>(())
            },
            r is Err ==> final(self).data@ == old(self).data@,
            r is Ok ==> forall|x: int, y: int, z: int|
                in_dims(old(self).dims, x, y, z) ==> #[trigger] final(self).voxel(x, y, z) == if in_box(
                    p1,
                    p2,
                    x,
                    y,
                    z,
                ) {
                    code_of(material)
                } else {
                    old(self).voxel(x, y, z)
                },
    {
        if let Err(e) = self.check_contains(p1) {
            return Err(e);
        }
        if let Err(e) = self.check_contains(p2) {
            return Err(e);
        }
        let code = match self.get_material_code(material) {
            Ok(c) => c,
            Err(e) => return Err(e),
        };
        let lo = p1.min(p2);
        let hi = p1.max(p2);
        let ghost before = *self;
        let always = |p: Int3| -> (c: Option<Option<MaterialCode>>)
            ensures
                c == Some(code),
            { Some(code) };
        self.paint_box(lo, hi, always);
        proof {
            assert forall|x: int, y: int, z: int| in_dims(before.dims, x, y, z) implies #[trigger] self.voxel(
                x,
                y,
                z,
            ) == if in_box(p1, p2, x, y, z) {
                code_of(material)
            } else {
                before.voxel(x, y, z)
            } by {
                if in_span(lo, hi, x, y, z) {
                    let c = choose|c: Option<Option<MaterialCode>>|
                        always.ensures((pt(x, y, z),), c) && #[trigger] self.voxel(x, y, z) == match c {
                            Some(v) => v,
                            None => before.voxel(x, y, z),
                        };
                    assert(c == Some(code));
                }
            }
        }
        Ok(())
    }

    /// Sets to `material` the voxels of the ellipsoid centered on `center` with semi-axes
    /// `radii`, as decided voxel by voxel by `inside` over the ellipsoid's bounding box clipped
    /// to the grid. Fails, changing nothing, when `center` is outside the grid, the material is of
    /// another palette, or a radius is 0 (checked in that order).
    pub fn fill_ellipsoid(
        &mut self,
        material: Option<MaterialRef>,
        center: Int3,
        radii: Int3,
        inside: impl Fn(Int3) -> bool,
    ) -> (r: Result<(), ModelError>)
        requires
            old(self).wf(),
            center.x + radii.x <= usize::MAX,
            center.y + radii.y <= usize::MAX,
            center.z + radii.z <= usize::MAX,
            forall|p: Int3| inside.requires((p,)),
        ensures
            final(self).wf(),
            final(self).dims == old(self).dims,
            final(self).palette == old(self).palette,
            final(self).pivot == old(self).pivot,
            r == if !in_dims(old(self).dims, center.x as int, center.y as int, center.z as int) {
                Err(ModelError::OutOfBounds { pos: center })
            } else if material matches Some(m) && m.palette != old(self).palette {
                Err(ModelError::ForeignMaterial)
            } else if radii.x == 0 || radii.y == 0 || radii.z == 0 {
                Err(ModelError::ZeroRadius)
            } else {
                Ok::<(), ModelError>(())
            },
            r is Err ==> final(self).data@ == old(self).data@,
            r is Ok ==> forall|x: int, y: int, z: int|
                in_dims(old(self).dims, x, y, z) ==> if in_span(
                    pt(
                        sat_sub(center.x as int, radii.x as int),
                        sat_sub(center.y as int, radii.y as int),
                        sat_sub(center.z as int, radii.z as int),
                    ),
                    pt(
                        min_int(center.x + radii.x, old(self).dims.x - 1),
                        min_int(center.y + radii.y, old(self).dims.y - 1),
                        min_int(center.z + radii.z, old(self).dims.z - 1),
                    ),
                    x,
                    y,
                    z,
                ) {
                    exists|b: bool|
                        inside.ensures((pt(x, y, z),), b) && #[trigger] final(self).voxel(x, y, z) == if b {
                            code_of(material)
                        } else {
                            old(self).voxel(x, y, z)
                        }
                } else {
                    final(self).voxel(x, y, z) == old(self).voxel(x, y, z)
                },
    {
        if let Err(e) = self.check_contains(center) {
            return Err(e);
        }
        let code = match self.get_material_code(material) {
            Ok(c) => c,
            Err(e) => return Err(e),
        };
        if radii.contains_zero() {
            return Err(ModelError::ZeroRadius);
        }
        let lo = center.saturating_sub(radii);
        let hi = center.plus(radii).min(self.dims.last_index());
        let ghost before = *self;
        let inside_ref = &inside;
        let paint = |p: Int3| -> (c: Option<Option<MaterialCode>>)
            requires
                inside_ref.requires((p,)),
            ensures
                exists|b: bool| inside_ref.ensures((p,), b) && c == if b { Some(code) } else { None },
            {
                if inside_ref(p) {
                    Some(code)
                } else {
                    None
                }
            };
        self.paint_box(lo, hi, paint);
        proof {
            assert forall|x: int, y: int, z: int| in_dims(before.dims, x, y, z) && in_span(lo, hi, x, y, z) implies exists|b: bool|
                inside.ensures((pt(x, y, z),), b) && #[trigger] self.voxel(x, y, z) == if b {
                    code_of(material)
                } else {
                    before.voxel(x, y, z)
                } by {
                let c = choose|c: Option<Option<MaterialCode>>|
                    paint.ensures((pt(x, y, z),), c) && #[trigger] self.voxel(x, y, z) == match c {
                        Some(v) => v,
                        None => before.voxel(x, y, z),
                    };
                let b = choose|b: bool| inside.ensures((pt(x, y, z),), b) && c == if b { Some(code) } else { None };
                assert(inside.ensures((pt(x, y, z),), b));
            }
        }
        Ok(())
    }
}

impl Model {
    /// Copies the non-empty voxels of `other` into this model, `other`'s origin landing on
    /// `offset`. Fails, changing nothing, when `other` does not fit (the position of its last
    /// voxel is reported) or uses another palette.
    pub fn embed(&mut self, other: &Model, offset: Int3) -> (r: Result<(), ModelError>)
        requires
            old(self).wf(),
            other.wf(),
            other.dims.x - 1 + offset.x <= usize::MAX,
            other.dims.y - 1 + offset.y <= usize::MAX,
            other.dims.z - 1 + offset.z <= usize::MAX,
        ensures
            final(self).wf(),
            final(self).dims == old(self).dims,
            final(self).palette == old(self).palette,
            final(self).pivot == old(self).pivot,
            r == if !in_dims(
                old(self).dims,
                other.dims.x - 1 + offset.x,
                other.dims.y - 1 + offset.y,
                other.dims.z - 1 + offset.z,
            ) {
                Err(
                    ModelError::OutOfBounds {
                        pos: pt(
                            other.dims.x - 1 + offset.x,
                            other.dims.y - 1 + offset.y,
                            other.dims.z - 1 + offset.z,
                        ),
                    },
                )
            } else if other.palette != old(self).palette {
                Err(ModelError::DifferentPalettes)
            } else {
                Ok::<(), ModelError>(())
            },
            r is Err ==> final(self).data@ == old(self).data@,
            r is Ok ==> forall|x: int, y: int, z: int|
                in_dims(old(self).dims, x, y, z) ==> #[trigger] final(self).voxel(x, y, z) == if in_span(
                    offset,
                    pt(other.dims.x - 1 + offset.x, other.dims.y - 1 + offset.y, other.dims.z - 1 + offset.z),
                    x,
                    y,
                    z,
                ) && other.voxel(x - offset.x, y - offset.y, z - offset.z) is Some {
                    other.voxel(x - offset.x, y - offset.y, z - offset.z)
                } else {
                    old(self).voxel(x, y, z)
                },
    {
        let last = other.dims.last_index().plus(offset);
        if let Err(e) = self.check_contains(last) {
            return Err(e);
        }
        if other.palette.id != self.palette.id {
            return Err(ModelError::DifferentPalettes);
        }
        let ghost before = *self;
        let paint = |p: Int3| -> (c: Option<Option<MaterialCode>>)
            requires
                in_span(offset, last, p.x as int, p.y as int, p.z as int),
            ensures
                c == if other.voxel(p.x - offset.x, p.y - offset.y, p.z - offset.z) is Some {
                    Some(other.voxel(p.x - offset.x, p.y - offset.y, p.z - offset.z))
                } else {
                    None::<Option<MaterialCode>>
                },
            {
                match other.get(p.minus(offset)) {
                    Some(c) => Some(Some(c)),
                    None => None,
                }
            };
        self.paint_box(offset, last, paint);
        proof {
            assert forall|x: int, y: int, z: int| in_dims(before.dims, x, y, z) implies #[trigger] self.voxel(x, y, z)
                == if in_span(offset, last, x, y, z) && other.voxel(x - offset.x, y - offset.y, z - offset.z) is Some {
                other.voxel(x - offset.x, y - offset.y, z - offset.z)
            } else {
                before.voxel(x, y, z)
            } by {
                if in_span(offset, last, x, y, z) {
                    let c = choose|c: Option<Option<MaterialCode>>|
                        paint.ensures((pt(x, y, z),), c) && #[trigger] self.voxel(x, y, z) == match c {
                            Some(v) => v,
                            None => before.voxel(x, y, z),
                        };
                }
            }
        }
        assert(last == pt(other.dims.x - 1 + offset.x, other.dims.y - 1 + offset.y, other.dims.z - 1 + offset.z));
        Ok(())
    }

    /// The box spanned by corners `p1` and `p2`, as a model of its own with the same palette and
    /// pivot. Fails when a corner is outside the grid (`p1` checked first).
    pub fn clip(&self, p1: Int3, p2: Int3) -> (r: Result<Model, ModelError>)
        requires
            self.wf(),
        ensures
            r matches Err(e) ==> e == if !in_dims(self.dims, p1.x as int, p1.y as int, p1.z as int) {
                ModelError::OutOfBounds { pos: p1 }
            } else {
                ModelError::OutOfBounds { pos: p2 }
            },
            r is Ok <==> in_dims(self.dims, p1.x as int, p1.y as int, p1.z as int) && in_dims(
                self.dims,
                p2.x as int,
                p2.y as int,
                p2.z as int,
            ),
            r matches Ok(m) ==> {
                let lo = pt(
                    min_int(p1.x as int, p2.x as int),
                    min_int(p1.y as int, p2.y as int),
                    min_int(p1.z as int, p2.z as int),
                );
                &&& m.wf()
                &&& m.dims.x == max_int(p1.x as int, p2.x as int) - lo.x + 1
                &&& m.dims.y == max_int(p1.y as int, p2.y as int) - lo.y + 1
                &&& m.dims.z == max_int(p1.z as int, p2.z as int) - lo.z + 1
                &&& m.palette == self.palette
                &&& m.pivot == self.pivot
                &&& forall|x: int, y: int, z: int|
                    in_dims(m.dims, x, y, z) ==> #[trigger] m.voxel(x, y, z) == self.voxel(lo.x + x, lo.y + y, lo.z + z)
            },
    {
        if let Err(e) = self.check_contains(p1) {
            return Err(e);
        }
        if let Err(e) = self.check_contains(p2) {
            return Err(e);
        }
        let lo = p1.min(p2);
        let hi = p1.max(p2);
        let dims = Dimensions::from_extent(hi.minus(lo).plus(Int3::one()));
        let mut clipped = Model::new(dims, self.palette, self.pivot);
        let last = dims.last_index();
        let paint = |p: Int3| -> (c: Option<Option<MaterialCode>>)
            requires
                in_span(Int3 { x: 0, y: 0, z: 0 }, last, p.x as int, p.y as int, p.z as int),
            ensures
                c == Some(self.voxel(lo.x + p.x, lo.y + p.y, lo.z + p.z)),
            { Some(self.get(p.plus(lo))) };
        let ghost fresh = clipped;
        clipped.paint_box(Int3::zero(), last, paint);
        proof {
            assert forall|x: int, y: int, z: int| in_dims(dims, x, y, z) implies #[trigger] clipped.voxel(x, y, z)
                == self.voxel(lo.x + x, lo.y + y, lo.z + z) by {
                assert(in_span(Int3 { x: 0, y: 0, z: 0 }, last, x, y, z));
                let c = choose|c: Option<Option<MaterialCode>>|
                    paint.ensures((pt(x, y, z),), c) && #[trigger] clipped.voxel(x, y, z) == match c {
                        Some(v) => v,
                        None => fresh.voxel(x, y, z),
                    };
            }
        }
        Ok(clipped)
    }
}

/// The lowest corner of the box spanned by `a` and `b`.
pub open spec fn span_lo(a: Int3, b: Int3) -> Int3 {
    Int3 {
        x: min_int(a.x as int, b.x as int) as usize,
        y: min_int(a.y as int, b.y as int) as usize,
        z: min_int(a.z as int, b.z as int) as usize,
    }
}

/// The highest corner of the box spanned by `a` and `b`.
pub open spec fn span_hi(a: Int3, b: Int3) -> Int3 {
    Int3 {
        x: max_int(a.x as int, b.x as int) as usize,
        y: max_int(a.y as int, b.y as int) as usize,
        z: max_int(a.z as int, b.z as int) as usize,
    }
}

/// Where point `(x, y, z)` of the box `[lo, hi]` comes when its points are listed by z, then y,
/// then x.
pub open spec fn box_rank(lo: Int3, hi: Int3, x: int, y: int, z: int) -> int {
    let wx = hi.x - lo.x + 1;
    let wy = hi.y - lo.y + 1;
    ((z - lo.z) * wy + (y - lo.y)) * wx + (x - lo.x)
}

/// The number of points of the box `[lo, hi]`.
pub open spec fn box_size(lo: Int3, hi: Int3) -> int {
    (hi.x - lo.x + 1) * (hi.y - lo.y + 1) * (hi.z - lo.z + 1)
}

/// The points of the box spanned by corners `a` and `b` (in any order), listed by z, then y,
/// then x, each coordinate increasing.
pub fn box_positions(a: Int3, b: Int3) -> (ps: Vec<Int3>)
    requires
        box_size(span_lo(a, b), span_hi(a, b)) <= usize::MAX,
    ensures
        ({
            let lo = span_lo(a, b);
            let hi = span_hi(a, b);
            &&& ps@.len() == box_size(lo, hi)
            &&& forall|x: int, y: int, z: int|
                in_span(lo, hi, x, y, z) ==> ps@[#[trigger] box_rank(lo, hi, x, y, z)] == pt(x, y, z)
        }),
{
    let lo = a.min(b);
    let hi = a.max(b);
    let ghost gx = hi.x - lo.x + 1;
    let ghost gy = hi.y - lo.y + 1;
    let ghost gz = hi.z - lo.z + 1;
    proof {
        assert(gx * gy * gz == box_size(lo, hi));
        assert(gx <= gx * gy * gz && gy <= gx * gy * gz && gz <= gx * gy * gz) by (nonlinear_arith)
            requires
                gx >= 1,
                gy >= 1,
                gz >= 1,
        ;
    }
    let wx = hi.x - lo.x + 1;
    let wy = hi.y - lo.y + 1;
    let wz = hi.z - lo.z + 1;
    let mut ps: Vec<Int3> = Vec::new();
    let mut k: usize = 0;
    while k < wz
        invariant
            lo == span_lo(a, b),
            hi == span_hi(a, b),
            wx == hi.x - lo.x + 1,
            wy == hi.y - lo.y + 1,
            wz == hi.z - lo.z + 1,
            wx * wy * wz <= usize::MAX,
            k <= wz,
            ps@.len() == k * (wy * wx),
            forall|x: int, y: int, z: int|
                in_span(lo, hi, x, y, z) && z < lo.z + k ==> ps@[#[trigger] box_rank(lo, hi, x, y, z)] == pt(x, y, z),
        decreases wz - k,
    {
        let z = lo.z + k;
        let ghost base = ps@.len() as int;
        let mut j: usize = 0;
        while j < wy
            invariant
                lo == span_lo(a, b),
                hi == span_hi(a, b),
                wx == hi.x - lo.x + 1,
                wy == hi.y - lo.y + 1,
                wz == hi.z - lo.z + 1,
                wx * wy * wz <= usize::MAX,
                k < wz,
                z == lo.z + k,
                j <= wy,
                base == k * (wy * wx),
                ps@.len() == base + j * wx,
                forall|x: int, y: int, zz: int|
                    in_span(lo, hi, x, y, zz) && (zz < z || (zz == z && y < lo.y + j)) ==> ps@[#[trigger] box_rank(
                        lo,
                        hi,
                        x,
                        y,
                        zz,
                    )] == pt(x, y, zz),
            decreases wy - j,
        {
            let y = lo.y + j;
            let ghost row = ps@.len() as int;
            let mut i: usize = 0;
            while i < wx
                invariant
                    lo == span_lo(a, b),
                    hi == span_hi(a, b),
                    wx == hi.x - lo.x + 1,
                    wy == hi.y - lo.y + 1,
                    wz == hi.z - lo.z + 1,
                    wx * wy * wz <= usize::MAX,
                    k < wz,
                    j < wy,
                    z == lo.z + k,
                    y == lo.y + j,
                    i <= wx,
                    row == k * (wy * wx) + j * wx,
                    ps@.len() == row + i,
                    forall|xx: int, yy: int, zz: int|
                        in_span(lo, hi, xx, yy, zz) && (zz < z || (zz == z && yy < y) || (zz == z && yy == y && xx
                            < lo.x + i)) ==> ps@[#[trigger] box_rank(lo, hi, xx, yy, zz)] == pt(xx, yy, zz),
                decreases wx - i,
            {
                let x = lo.x + i;
                proof {
                    assert(box_rank(lo, hi, x as int, y as int, z as int) == row + i) by (nonlinear_arith)
                        requires
                            row == k * (wy * wx) + j * wx,
                            x == lo.x + i,
                            y == lo.y + j,
                            z == lo.z + k,
                            wx == hi.x - lo.x + 1,
                            wy == hi.y - lo.y + 1,
                    ;
                    assert(row + i < wx * wy * wz) by (nonlinear_arith)
                        requires
                            row == k * (wy * wx) + j * wx,
                            i < wx,
                            j < wy,
                            k < wz,
                    ;
                }
                let ghost prev = ps@;
                ps.push(Int3 { x, y, z });
                proof {
                    assert forall|xx: int, yy: int, zz: int|
                        in_span(lo, hi, xx, yy, zz) && (zz < z || (zz == z && yy < y) || (zz == z && yy == y && xx
                            < lo.x + i + 1)) implies ps@[#[trigger] box_rank(lo, hi, xx, yy, zz)] == pt(xx, yy, zz) by {
                        if zz == z && yy == y && xx == x {
                        } else {
                            lemma_box_rank_bound(lo, hi, xx, yy, zz, x as int, y as int, z as int);
                            assert(ps@[box_rank(lo, hi, xx, yy, zz)] == prev[box_rank(lo, hi, xx, yy, zz)]);
                        }
                    }
                }
                i = i + 1;
            }
            proof {
                assert(ps@.len() == base + (j + 1) * wx) by (nonlinear_arith)
                    requires
                        ps@.len() == row + wx,
                        row == base + j * wx,
                ;
            }
            j = j + 1;
        }
        proof {
            assert(ps@.len() == (k + 1) * (wy * wx)) by (nonlinear_arith)
                requires
                    ps@.len() == base + wy * wx,
                    base == k * (wy * wx),
            ;
        }
        k = k + 1;
    }
    proof {
        assert(ps@.len() == box_size(lo, hi)) by (nonlinear_arith)
            requires
                ps@.len() == wz * (wy * wx),
                box_size(lo, hi) == wx * wy * wz,
        ;
    }
    ps
}

/// The rank of a point listed before `(x, y, z)` is smaller than that of `(x, y, z)`.
proof fn lemma_box_rank_bound(lo: Int3, hi: Int3, xx: int, yy: int, zz: int, x: int, y: int, z: int)
    requires
        in_span(lo, hi, xx, yy, zz),
        in_span(lo, hi, x, y, z),
        zz < z || (zz == z && yy < y) || (zz == z && yy == y && xx < x),
    ensures
        box_rank(lo, hi, xx, yy, zz) < box_rank(lo, hi, x, y, z),
{
    let wx = hi.x - lo.x + 1;
    let wy = hi.y - lo.y + 1;
    if zz < z {
        assert((zz - lo.z) * wy + (yy - lo.y) < (z - lo.z) * wy) by (nonlinear_arith)
            requires
                zz < z,
                lo.y <= yy <= hi.y,
                wy == hi.y - lo.y + 1,
        ;
        assert(((zz - lo.z) * wy + (yy - lo.y)) * wx + (xx - lo.x) < ((z - lo.z) * wy + (y - lo.y)) * wx) by (nonlinear_arith)
            requires
                (zz - lo.z) * wy + (yy - lo.y) + 1 <= (z - lo.z) * wy + (y - lo.y),
                lo.x <= xx <= hi.x,
                wx == hi.x - lo.x + 1,
        ;
    } else if yy < y {
        assert(((zz - lo.z) * wy + (yy - lo.y)) * wx + (xx - lo.x) < ((z - lo.z) * wy + (y - lo.y)) * wx) by (nonlinear_arith)
            requires
                (zz - lo.z) * wy + (yy - lo.y) + 1 <= (z - lo.z) * wy + (y - lo.y),
                lo.x <= xx <= hi.x,
                wx == hi.x - lo.x + 1,
        ;
    }
}

} // verus!
