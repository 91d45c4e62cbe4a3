//! Points, mesh vertices, the glyph rectangle and the bounding box.

use vstd::prelude::*;

verus! {

/// A point of an outline: two numerators over the outline's denominator.
#[derive(Clone, Copy, Debug, PartialEq, Eq, Structural)]
pub struct Point {
    pub x: i128,
    pub y: i128,
}

/// A position in space: three numerators over the mesh's denominator.
#[derive(Clone, Copy, Debug, PartialEq, Eq, Structural)]
pub struct Vec3 {
    pub x: i128,
    pub y: i128,
    pub z: i128,
}

/// The rectangle that a font reports for a glyph, in font units.
#[derive(Clone, Copy, Debug, PartialEq, Eq, Structural)]
pub struct Rect {
    pub x_min: i16,
    pub y_min: i16,
    pub x_max: i16,
    pub y_max: i16,
}

/// A bounding box for a mesh. If the mesh is flat, the z-coordinates are zero.
#[derive(Clone, Copy, Debug, PartialEq, Eq, Structural)]
pub struct BoundingBox {
    /// The coordinates of the minimum point.
    pub min: Vec3,
    /// The coordinates of the maximum point.
    pub max: Vec3,
}

impl Vec3 {
    /// The origin.
    pub open spec fn spec_zero() -> Vec3 {
        Vec3 { x: 0, y: 0, z: 0 }
    }

    /// The origin.
    pub fn zero() -> (v: Vec3)
        ensures
            v == Vec3::spec_zero(),
    {
        Vec3 { x: 0, y: 0, z: 0 }
    }
}

impl BoundingBox {
    /// The box whose two corners are the origin.
    pub open spec fn spec_empty() -> BoundingBox {
        BoundingBox { min: Vec3::spec_zero(), max: Vec3::spec_zero() }
    }

    /// Creates a bounding box from its two corners.
    pub fn new(min: Vec3, max: Vec3) -> (b: BoundingBox)
        ensures
            b.min == min,
            b.max == max,
    {
        BoundingBox { min, max }
    }

    /// Creates the empty bounding box: both corners at the origin.
    pub fn empty() -> (b: BoundingBox)
        ensures
            b == BoundingBox::spec_empty(),
    {
        BoundingBox { min: Vec3::zero(), max: Vec3::zero() }
    }

    /// Whether the sums of the corners' coordinates are whole numbers of
    /// the machine.
    pub open spec fn center_fits(self) -> bool {
        &&& i128::MIN <= self.min.x + self.max.x <= i128::MAX
        &&& i128::MIN <= self.min.y + self.max.y <= i128::MAX
        &&& i128::MIN <= self.min.z + self.max.z <= i128::MAX
    }

    /// Whether the differences of the corners' coordinates, and what they
    /// are without their sign, are whole numbers of the machine.
    pub open spec fn size_fits(self) -> bool {
        &&& -i128::MAX <= self.max.x - self.min.x <= i128::MAX
        &&& -i128::MAX <= self.max.y - self.min.y <= i128::MAX
        &&& -i128::MAX <= self.max.z - self.min.z <= i128::MAX
    }

    /// The center of the box, as numerators over twice the denominator of
    /// the box: the sum of the two corners. Half of a coordinate need not be
    /// a whole number, so the center is given over the doubled denominator.
    pub fn center(&self) -> (center: Vec3)
        requires
            self.center_fits(),
        ensures
            center.x == self.min.x + self.max.x,
            center.y == self.min.y + self.max.y,
            center.z == self.min.z + self.max.z,
    {
        Vec3 {
            x: self.min.x + self.max.x,
            y: self.min.y + self.max.y,
            z: self.min.z + self.max.z,
        }
    }

    /// The size of the box: how far it reaches along each axis.
    pub fn size(&self) -> (size: Vec3)
        requires
            self.size_fits(),
        ensures
            size.x == distance(self.min.x as int, self.max.x as int),
            size.y == distance(self.min.y as int, self.max.y as int),
            size.z == distance(self.min.z as int, self.max.z as int),
    {
        Vec3 {
            x: span(self.min.x, self.max.x),
            y: span(self.min.y, self.max.y),
            z: span(self.min.z, self.max.z),
        }
    }
}

/// How far two numbers are apart.
pub open spec fn distance(a: int, b: int) -> int {
    if a <= b {
        b - a
    } else {
        a - b
    }
}

/// How far two numbers are apart.
fn span(a: i128, b: i128) -> (d: i128)
    requires
        -i128::MAX <= b - a <= i128::MAX,
    ensures
        d == distance(a as int, b as int),
{
    if a <= b {
        b - a
    } else {
        a - b
    }
}

} // verus!
