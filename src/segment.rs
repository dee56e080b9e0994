//! Closed segments: overlap of intervals, intersection, and a point lying on a segment.

use vstd::prelude::*;
use crate::geometry::{Point, area, sign, dot, area_of, sign_of, dot_of, diff_of};

verus! {

pub open spec fn min_of(a: int, b: int) -> int {
    if a <= b { a } else { b }
}

pub open spec fn max_of(a: int, b: int) -> int {
    if a <= b { b } else { a }
}

/// The closed intervals spanned by `a, b` and by `c, d` share a value.
pub open spec fn overlap_1d(a: int, b: int, c: int, d: int) -> bool {
    max_of(min_of(a, b), min_of(c, d)) <= min_of(max_of(a, b), max_of(c, d))
}

/// The bounding boxes of the two segments overlap, and each segment has the ends of the
/// other on opposite sides of its line or on it.
pub open spec fn segments_meet(a: Point, b: Point, c: Point, d: Point) -> bool {
    &&& overlap_1d(a.x as int, b.x as int, c.x as int, d.x as int)
    &&& overlap_1d(a.y as int, b.y as int, c.y as int, d.y as int)
    &&& sign_of(area_of(a, b, c)) * sign_of(area_of(a, b, d)) <= 0
    &&& sign_of(area_of(c, d, a)) * sign_of(area_of(c, d, b)) <= 0
}

/// `mid` is collinear with `a` and `b` and lies between them, ends included.
pub open spec fn lies_between(a: Point, mid: Point, b: Point) -> bool {
    area_of(mid, a, b) == 0 && dot_of(diff_of(a, mid), diff_of(b, mid)) <= 0
}

/// Whether the closed intervals spanned by `a, b` and by `c, d` overlap.
pub fn intersect_1d(a: i32, b: i32, c: i32, d: i32) -> (r: bool)
    ensures
        r == overlap_1d(a as int, b as int, c as int, d as int),
{
    let (lo1, hi1) = if a > b { (b, a) } else { (a, b) };
    let (lo2, hi2) = if c > d { (d, c) } else { (c, d) };
    let lo = if lo1 > lo2 { lo1 } else { lo2 };
    let hi = if hi1 < hi2 { hi1 } else { hi2 };
    lo <= hi
}

/// Whether the closed segments `[a, b]` and `[c, d]` share a point; touching ends and
/// collinear overlap count.
pub fn segments_intersect(a: Point, b: Point, c: Point, d: Point) -> (r: bool)
    ensures
        r == segments_meet(a, b, c, d),
{
    intersect_1d(a.x, b.x, c.x, d.x) && intersect_1d(a.y, b.y, c.y, d.y) && sign(area(a, b, c))
        * sign(area(a, b, d)) <= 0 && sign(area(c, d, a)) * sign(area(c, d, b)) <= 0
}

/// Whether `mid` lies on the closed segment from `a` to `b`.
pub fn between(a: Point, mid: Point, b: Point) -> (r: bool)
    ensures
        r == lies_between(a, mid, b),
{
    let v1 = a.sub(mid);
    let v2 = b.sub(mid);
    area(mid, a, b) == 0 && dot(v1, v2) <= 0
}

pub proof fn lemma_area_swap(a: Point, b: Point, c: Point)
    ensures
        area_of(b, a, c) == -area_of(a, b, c),
        area_of(a, c, b) == -area_of(a, b, c),
        area_of(b, c, a) == area_of(a, b, c),
{
    let (ax, ay, bx, by, cx, cy) = (a.x as int, a.y as int, b.x as int, b.y as int, c.x as int, c.y as int);
    assert((ax - bx) * (cy - by) - (ay - by) * (cx - bx) == -((bx - ax) * (cy - ay) - (by - ay) * (cx - ax)))
        by (nonlinear_arith);
    assert((cx - ax) * (by - ay) - (cy - ay) * (bx - ax) == -((bx - ax) * (cy - ay) - (by - ay) * (cx - ax)))
        by (nonlinear_arith);
    assert((cx - bx) * (ay - by) - (cy - by) * (ax - bx) == (bx - ax) * (cy - ay) - (by - ay) * (cx - ax))
        by (nonlinear_arith);
}

pub proof fn lemma_dot_symmetric(u: crate::geometry::Vector, v: crate::geometry::Vector)
    ensures
        dot_of(u, v) == dot_of(v, u),
{
    assert(u.x * v.x == v.x * u.x && u.y * v.y == v.y * u.y) by (nonlinear_arith);
}

/// Whether two segments meet does not depend on which is named first, nor on the
/// order in which the ends of each are given.
pub proof fn lemma_segments_intersect_symmetric(a: Point, b: Point, c: Point, d: Point)
    ensures
        segments_meet(a, b, c, d) == segments_meet(c, d, a, b),
        segments_meet(a, b, c, d) == segments_meet(b, a, d, c),
        segments_meet(a, b, c, d) == segments_meet(b, a, c, d),
{
    lemma_area_swap(a, b, c);
    lemma_area_swap(a, b, d);
    lemma_area_swap(c, d, a);
    lemma_area_swap(c, d, b);
    let (s1, s2) = (sign_of(area_of(a, b, c)), sign_of(area_of(a, b, d)));
    let (s3, s4) = (sign_of(area_of(c, d, a)), sign_of(area_of(c, d, b)));
    assert(sign_of(area_of(b, a, d)) * sign_of(area_of(b, a, c)) == s1 * s2);
    assert(sign_of(area_of(d, c, b)) * sign_of(area_of(d, c, a)) == s3 * s4);
    assert(s3 * s4 == s4 * s3) by (nonlinear_arith);
    assert(sign_of(area_of(b, a, c)) * sign_of(area_of(b, a, d)) == s1 * s2);
    assert(overlap_1d(b.x as int, a.x as int, c.x as int, d.x as int) == overlap_1d(a.x as int, b.x as int, c.x as int, d.x as int));
    assert(overlap_1d(b.y as int, a.y as int, c.y as int, d.y as int) == overlap_1d(a.y as int, b.y as int, c.y as int, d.y as int));
}

} // verus!
