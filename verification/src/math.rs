//! Integer grid coordinates and model dimensions.
use vstd::prelude::*;

verus! {

/// A point (or extent) on the voxel grid.
#[derive(Copy, Clone, PartialEq, Eq, Structural, Debug)]
pub struct Int3 {
    pub x: usize,
    pub y: usize,
    pub z: usize,
}

/// The smaller of two integers.
pub open spec fn min_int(a: int, b: int) -> int {
    if a <= b {
        a
    } else {
        b
    }
}

/// The larger of two integers.
pub open spec fn max_int(a: int, b: int) -> int {
    if a >= b {
        a
    } else {
        b
    }
}

/// `a - b`, or 0 when `b > a`.
pub open spec fn sat_sub(a: int, b: int) -> int {
    if a >= b {
        a - b
    } else {
        0
    }
}

impl Int3 {
    /// The all-zero point.
    pub fn zero() -> (r: Int3)
        ensures
            r == (Int3 { x: 0, y: 0, z: 0 }),
    {
        Int3 { x: 0, y: 0, z: 0 }
    }

    /// The all-one point.
    pub fn one() -> (r: Int3)
        ensures
            r == (Int3 { x: 1, y: 1, z: 1 }),
    {
        Int3 { x: 1, y: 1, z: 1 }
    }

    /// Component `d` (0 for x, 1 for y, 2 for z).
    pub open spec fn axis(self, d: int) -> int {
        if d == 0 {
            self.x as int
        } else if d == 1 {
            self.y as int
        } else {
            self.z as int
        }
    }

    /// The point `(x, y, z)`.
    pub fn new(x: usize, y: usize, z: usize) -> (r: Int3)
        ensures
            r == (Int3 { x, y, z }),
    {
        Int3 { x, y, z }
    }

    /// Component `d` (0 for x, 1 for y, 2 for z).
    pub fn get(self, d: usize) -> (r: usize)
        requires
            d < 3,
        ensures
            r == self.axis(d as int),
    {
        if d == 0 {
            self.x
        } else if d == 1 {
            self.y
        } else {
            self.z
        }
    }

    /// Whether `f` holds of at least one of the three components.
    pub fn any(self, f: impl Fn(usize) -> bool) -> (r: bool)
        requires
            f.requires((self.x,)),
            f.requires((self.y,)),
            f.requires((self.z,)),
        ensures
            r ==> exists|c: usize| (c == self.x || c == self.y || c == self.z) && f.ensures((c,), true),
            !r ==> f.ensures((self.x,), false) && f.ensures((self.y,), false) && f.ensures((self.z,), false),
    {
        if f(self.x) {
            return true;
        }
        if f(self.y) {
            return true;
        }
        f(self.z)
    }

    /// Whether some component is 0.
    pub fn contains_zero(self) -> (r: bool)
        ensures
            r == (self.x == 0 || self.y == 0 || self.z == 0),
    {
        self.x == 0 || self.y == 0 || self.z == 0
    }

    /// The component-wise minimum.
    pub fn min(self, other: Int3) -> (r: Int3)
        ensures
            r.x == min_int(self.x as int, other.x as int),
            r.y == min_int(self.y as int, other.y as int),
            r.z == min_int(self.z as int, other.z as int),
    {
        Int3 {
            x: if self.x <= other.x { self.x } else { other.x },
            y: if self.y <= other.y { self.y } else { other.y },
            z: if self.z <= other.z { self.z } else { other.z },
        }
    }

    /// The component-wise maximum.
    pub fn max(self, other: Int3) -> (r: Int3)
        ensures
            r.x == max_int(self.x as int, other.x as int),
            r.y == max_int(self.y as int, other.y as int),
            r.z == max_int(self.z as int, other.z as int),
    {
        Int3 {
            x: if self.x >= other.x { self.x } else { other.x },
            y: if self.y >= other.y { self.y } else { other.y },
            z: if self.z >= other.z { self.z } else { other.z },
        }
    }

    /// The component-wise difference, stopping at 0.
    pub fn saturating_sub(self, rhs: Int3) -> (r: Int3)
        ensures
            r.x == sat_sub(self.x as int, rhs.x as int),
            r.y == sat_sub(self.y as int, rhs.y as int),
            r.z == sat_sub(self.z as int, rhs.z as int),
    {
        Int3 {
            x: if self.x >= rhs.x { self.x - rhs.x } else { 0 },
            y: if self.y >= rhs.y { self.y - rhs.y } else { 0 },
            z: if self.z >= rhs.z { self.z - rhs.z } else { 0 },
        }
    }

    /// The component-wise sum.
    pub fn plus(self, rhs: Int3) -> (r: Int3)
        requires
            self.x + rhs.x <= usize::MAX,
            self.y + rhs.y <= usize::MAX,
            self.z + rhs.z <= usize::MAX,
        ensures
            r.x == self.x + rhs.x,
            r.y == self.y + rhs.y,
            r.z == self.z + rhs.z,
    {
        Int3 { x: self.x + rhs.x, y: self.y + rhs.y, z: self.z + rhs.z }
    }

    /// The component-wise difference.
    pub fn minus(self, rhs: Int3) -> (r: Int3)
        requires
            rhs.x <= self.x,
            rhs.y <= self.y,
            rhs.z <= self.z,
        ensures
            r.x == self.x - rhs.x,
            r.y == self.y - rhs.y,
            r.z == self.z - rhs.z,
    {
        Int3 { x: self.x - rhs.x, y: self.y - rhs.y, z: self.z - rhs.z }
    }
}

} // verus!
