//! Vectors of the plane: the mathematical model and the machine value.

use vstd::prelude::*;

verus! {

/// A vector of the integer plane, used as a position and as a displacement.
/// Contracts are stated over this type; its arithmetic never overflows.
pub struct Vec2 {
    pub x: int,
    pub y: int,
}

impl Vec2 {
    /// The origin.
    pub open spec fn zero() -> Vec2 {
        Vec2 { x: 0, y: 0 }
    }

    /// The sum, coordinate by coordinate.
    pub open spec fn plus(self, other: Vec2) -> Vec2 {
        Vec2 { x: self.x + other.x, y: self.y + other.y }
    }

    /// The difference, coordinate by coordinate.
    pub open spec fn minus(self, other: Vec2) -> Vec2 {
        Vec2 { x: self.x - other.x, y: self.y - other.y }
    }

    /// The opposite vector.
    pub open spec fn negated(self) -> Vec2 {
        Vec2 { x: -self.x, y: -self.y }
    }

    /// The scalar product.
    pub open spec fn dot(self, other: Vec2) -> int {
        self.x * other.x + self.y * other.y
    }

    /// The third component of the cross product of the two vectors.
    pub open spec fn cross(self, other: Vec2) -> int {
        self.x * other.y - self.y * other.x
    }

    /// Both components lie in `-bound ..= bound`.
    pub open spec fn within(self, bound: int) -> bool {
        -bound <= self.x <= bound && -bound <= self.y <= bound
    }
}

/// The planar form of `(a x b) x c`: a vector perpendicular to `c`, on the
/// side that the sign of `a.cross(b)` selects.
pub open spec fn triple_product(a: Vec2, b: Vec2, c: Vec2) -> Vec2 {
    let z = a.cross(b);
    Vec2 { x: (-z) * c.y, y: z * c.x }
}

/// `v` can be held in an `i128`.
pub open spec fn fits(v: int) -> bool {
    i128::MIN <= v <= i128::MAX
}

/// Every step of computing `a.dot(b)` can be held in an `i128`.
pub open spec fn dot_fits(a: Vec2, b: Vec2) -> bool {
    fits(a.x * b.x) && fits(a.y * b.y) && fits(a.dot(b))
}

/// Every step of computing `triple_product(a, b, c)` can be held in an `i128`.
pub open spec fn triple_fits(a: Vec2, b: Vec2, c: Vec2) -> bool {
    &&& fits(a.x * b.y)
    &&& fits(a.y * b.x)
    &&& fits(a.cross(b))
    &&& fits(-a.cross(b))
    &&& fits((-a.cross(b)) * c.y)
    &&& fits(a.cross(b) * c.x)
}

/// A point or a displacement with machine integer coordinates.
#[derive(Clone, Copy, Debug, PartialEq, Eq, Structural)]
pub struct Point {
    pub x: i128,
    pub y: i128,
}

impl View for Point {
    type V = Vec2;

    open spec fn view(&self) -> Vec2 {
        Vec2 { x: self.x as int, y: self.y as int }
    }
}

impl Point {
    /// Component-wise sum.
    pub fn add(self, other: Point) -> (r: Point)
        requires
            fits(self.x + other.x),
            fits(self.y + other.y),
        ensures
            r@ == self@.plus(other@),
    {
        Point { x: self.x + other.x, y: self.y + other.y }
    }

    /// Component-wise difference.
    pub fn sub(self, other: Point) -> (r: Point)
        requires
            fits(self.x - other.x),
            fits(self.y - other.y),
        ensures
            r@ == self@.minus(other@),
    {
        Point { x: self.x - other.x, y: self.y - other.y }
    }

    /// The opposite vector.
    pub fn neg(self) -> (r: Point)
        requires
            fits(-self.x),
            fits(-self.y),
        ensures
            r@ == self@.negated(),
    {
        Point { x: -self.x, y: -self.y }
    }

    /// Whether both components are zero.
    pub fn is_zero(&self) -> (r: bool)
        ensures
            r == (self@ == Vec2::zero()),
    {
        self.x == 0 && self.y == 0
    }
}

/// The scalar product `a.x * b.x + a.y * b.y`.
pub fn dot_product(a: &Point, b: &Point) -> (r: i128)
    requires
        dot_fits(a@, b@),
    ensures
        r == a@.dot(b@),
{
    a.x * b.x + a.y * b.y
}

/// The vector `(-z * c.y, z * c.x)` with `z = a.x * b.y - a.y * b.x`.
pub fn triple_cross_product(a: &Point, b: &Point, c: &Point) -> (r: Point)
    requires
        triple_fits(a@, b@, c@),
    ensures
        r@ == triple_product(a@, b@, c@),
{
    let ab: i128 = (a.x * b.y) - (a.y * b.x);
    Point { x: -ab * c.y, y: ab * c.x }
}

} // verus!
