//! Points, vectors and the integer primitives built on them.

use vstd::prelude::*;

verus! {

/// A point with 32-bit integer coordinates.
#[derive(Clone, Copy, Debug, PartialEq, Eq, Structural)]
pub struct Point {
    pub x: i32,
    pub y: i32,
}

/// The difference of two points. Its components need 33 bits, so they are held in 64.
#[derive(Clone, Copy, Debug, PartialEq, Eq, Structural)]
pub struct Vector {
    pub x: i64,
    pub y: i64,
}

/// Largest magnitude of a component of the difference of two points.
pub open spec fn span_bound() -> int {
    0x1_0000_0000
}

/// Largest magnitude of a cross product of two such differences.
pub open spec fn area_bound() -> int {
    2 * span_bound() * span_bound()
}

impl Vector {
    /// Both components are within what a difference of two points can reach.
    pub open spec fn in_span(self) -> bool {
        -span_bound() < self.x < span_bound() && -span_bound() < self.y < span_bound()
    }
}

pub open spec fn cross_of(a: Vector, b: Vector) -> int {
    a.x * b.y - a.y * b.x
}

pub open spec fn dot_of(a: Vector, b: Vector) -> int {
    a.x * b.x + a.y * b.y
}

pub open spec fn diff_of(a: Point, b: Point) -> Vector {
    Vector { x: (a.x - b.x) as i64, y: (a.y - b.y) as i64 }
}

/// Twice the signed area of the triangle `a, b, c`: positive when the triple turns
/// counter-clockwise, negative when it turns clockwise, zero when it is collinear.
pub open spec fn area_of(a: Point, b: Point, c: Point) -> int {
    (b.x - a.x) * (c.y - a.y) - (b.y - a.y) * (c.x - a.x)
}

pub open spec fn sign_of(v: int) -> int {
    if v == 0 {
        0
    } else if v < 0 {
        -1
    } else {
        1
    }
}

impl Point {
    /// The vector from `other` to `self`.
    pub fn sub(self, other: Point) -> (r: Vector)
        ensures
            r.x == self.x - other.x,
            r.y == self.y - other.y,
            r == diff_of(self, other),
            r.in_span(),
    {
        Vector { x: self.x as i64 - other.x as i64, y: self.y as i64 - other.y as i64 }
    }
}

/// -1, 0 or 1 by the sign of `a`.
pub fn sign(a: i128) -> (r: i128)
    ensures
        r == sign_of(a as int),
{
    if a == 0 {
        0
    } else if a < 0 {
        -1
    } else {
        1
    }
}

proof fn lemma_span_product(a: int, b: int)
    requires
        -span_bound() < a < span_bound(),
        -span_bound() < b < span_bound(),
    ensures
        -span_bound() * span_bound() < a * b < span_bound() * span_bound(),
{
    assert(-span_bound() * span_bound() < a * b < span_bound() * span_bound()) by (nonlinear_arith)
        requires
            -span_bound() < a < span_bound(),
            -span_bound() < b < span_bound(),
    ;
}

/// The cross product `a.x * b.y - a.y * b.x`, exact. Positive when `b` turns
/// counter-clockwise from `a`.
pub fn cross(a: Vector, b: Vector) -> (r: i128)
    requires
        a.in_span(),
        b.in_span(),
    ensures
        r == cross_of(a, b),
        -area_bound() < r < area_bound(),
{
    proof {
        lemma_span_product(a.x as int, b.y as int);
        lemma_span_product(a.y as int, b.x as int);
    }
    a.x as i128 * b.y as i128 - a.y as i128 * b.x as i128
}

/// The dot product `a.x * b.x + a.y * b.y`, exact.
pub fn dot(a: Vector, b: Vector) -> (r: i128)
    requires
        a.in_span(),
        b.in_span(),
    ensures
        r == dot_of(a, b),
{
    proof {
        lemma_span_product(a.x as int, b.x as int);
        lemma_span_product(a.y as int, b.y as int);
    }
    a.x as i128 * b.x as i128 + a.y as i128 * b.y as i128
}

/// Twice the signed area of the triangle `a, b, c`.
pub fn area(a: Point, b: Point, c: Point) -> (r: i128)
    ensures
        r == area_of(a, b, c),
        -area_bound() < r < area_bound(),
{
    cross(b.sub(a), c.sub(a))
}

} // verus!
