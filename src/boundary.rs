//! Whether a figure edge leaves a hole: the edge may touch the boundary or run along it,
//! but may not pass outside.

use vstd::prelude::*;
use crate::geometry::{Point, area, area_of, area_bound};
use crate::segment::{between, segments_intersect, lies_between, segments_meet, lemma_area_swap};
use crate::polygon::next_index;

verus! {

/// `v` read for a hole of orientation `o`: unchanged for a counter-clockwise hole
/// (`o >= 0`), negated for a clockwise one.
pub open spec fn toward(o: int, v: int) -> int {
    if o < 0 {
        -v
    } else {
        v
    }
}

/// The lowest of the first `k` vertices of `poly`, the leftmost among equally low ones.
pub open spec fn lowest_index(poly: Seq<Point>, k: int) -> int
    decreases k,
{
    if k <= 1 {
        0
    } else {
        let j = lowest_index(poly, k - 1);
        let q = poly[k - 1];
        if q.y < poly[j].y || (q.y == poly[j].y && q.x < poly[j].x) {
            k - 1
        } else {
            j
        }
    }
}

/// The index before `i` around a polygon of `n` vertices.
pub open spec fn prev_index(n: int, i: int) -> int {
    if i > 0 {
        i - 1
    } else {
        n - 1
    }
}

/// 1 where `hole` runs counter-clockwise, -1 where it runs clockwise: read from the turn at
/// its lowest (then leftmost) vertex, where a simple polygon turns convexly.
pub open spec fn orientation(hole: Seq<Point>) -> int {
    let n = hole.len() as int;
    let i = lowest_index(hole, n);
    if area_of(hole[prev_index(n, i)], hole[i], hole[next_index(n, i)]) < 0 {
        -1
    } else {
        1
    }
}

/// `q` is on the inner side at hole vertex `b`, entered from `a` and left towards `c`, in a
/// hole of orientation `o`. Where the hole turns convexly at `b` the inner side is the
/// cone between the two edges; where it turns reflexively, either half-plane will do.
pub open spec fn interior_at(o: int, a: Point, b: Point, c: Point, q: Point) -> bool {
    if toward(o, area_of(b, c, a)) >= 0 {
        toward(o, area_of(b, c, q)) >= 0 && toward(o, area_of(b, q, a)) >= 0
    } else {
        toward(o, area_of(b, c, q)) >= 0 || toward(o, area_of(b, q, a)) >= 0
    }
}

/// The verdict of hole edge `a -> b` (followed by `b -> c`) of a hole of orientation `o`
/// on the figure edge `ua - ub`, by the first rule that applies:
/// 1. `b` lies on the figure edge: it crosses where an end is off the inner side at `b`;
/// 2. `a` lies on the figure edge: this hole edge leaves it to its neighbours;
/// 3. `ua` lies on the hole edge: it crosses where `ub` is strictly outward;
/// 4. `ub` lies on the hole edge: it crosses where `ua` is strictly outward;
/// 5. otherwise it crosses where the two segments meet.
pub open spec fn crosses_at(o: int, ua: Point, ub: Point, a: Point, b: Point, c: Point) -> bool {
    if lies_between(ua, b, ub) {
        !interior_at(o, a, b, c, ua) || !interior_at(o, a, b, c, ub)
    } else if lies_between(ua, a, ub) {
        false
    } else if lies_between(a, ua, b) {
        toward(o, area_of(b, a, ub)) > 0
    } else if lies_between(a, ub, b) {
        toward(o, area_of(b, a, ua)) > 0
    } else {
        segments_meet(ua, ub, a, b)
    }
}

/// The verdict of hole edge `i` of `hole` on the figure edge `ua - ub`.
pub open spec fn crosses_hole_edge(ua: Point, ub: Point, hole: Seq<Point>, i: int) -> bool {
    let n = hole.len() as int;
    crosses_at(orientation(hole), ua, ub, hole[i], hole[next_index(n, i)], hole[next_index(n, next_index(n, i))])
}

/// Some hole edge finds that the figure edge `ua - ub` crosses the boundary.
pub open spec fn crosses_boundary(ua: Point, ub: Point, hole: Seq<Point>) -> bool {
    exists|i: int| 0 <= i < hole.len() && #[trigger] crosses_hole_edge(ua, ub, hole, i)
}

/// `v` read for a hole of orientation `o`.
fn oriented(o: i128, v: i128) -> (r: i128)
    requires
        -area_bound() < v < area_bound(),
    ensures
        r == toward(o as int, v as int),
{
    if o < 0 {
        -v
    } else {
        v
    }
}

/// 1 where `hole` runs counter-clockwise, -1 where it runs clockwise.
pub fn hole_orientation(hole: &Vec<Point>) -> (r: i128)
    requires
        hole@.len() >= 1,
    ensures
        r == orientation(hole@),
{
    let n = hole.len();
    let mut low: usize = 0;
    let mut i: usize = 1;
    while i < n
        invariant
            1 <= i <= n,
            n == hole@.len(),
            low == lowest_index(hole@, i as int),
            0 <= low < i,
        decreases n - i,
    {
        let q = hole[i];
        if q.y < hole[low].y || (q.y == hole[low].y && q.x < hole[low].x) {
            low = i;
        }
        i = i + 1;
    }
    let prev = if low > 0 { low - 1 } else { n - 1 };
    let next = if low + 1 < n { low + 1 } else { 0 };
    if area(hole[prev], hole[low], hole[next]) < 0 {
        -1
    } else {
        1
    }
}

/// Whether `q` is on the inner side at hole vertex `b`, entered from `a`, left towards `c`,
/// in a hole of orientation `o`.
pub fn interior(o: i128, a: Point, b: Point, c: Point, q: Point) -> (r: bool)
    ensures
        r == interior_at(o as int, a, b, c, q),
{
    if oriented(o, area(b, c, a)) >= 0 {
        oriented(o, area(b, c, q)) >= 0 && oriented(o, area(b, q, a)) >= 0
    } else {
        oriented(o, area(b, c, q)) >= 0 || oriented(o, area(b, q, a)) >= 0
    }
}

/// The verdict of hole edge `a -> b`, followed by `b -> c`, of a hole of orientation `o`
/// on the figure edge `ua - ub`.
pub fn hole_edge_verdict(o: i128, ua: Point, ub: Point, a: Point, b: Point, c: Point) -> (r: bool)
    ensures
        r == crosses_at(o as int, ua, ub, a, b, c),
{
    if between(ua, b, ub) {
        !interior(o, a, b, c, ua) || !interior(o, a, b, c, ub)
    } else if between(ua, a, ub) {
        false
    } else if between(a, ua, b) {
        oriented(o, area(b, a, ub)) > 0
    } else if between(a, ub, b) {
        oriented(o, area(b, a, ua)) > 0
    } else {
        segments_intersect(ua, ub, a, b)
    }
}

/// Whether the figure edge from `ua` to `ub` passes outside the polygon `hole`.
pub fn edge_intersect_hole(ua: Point, ub: Point, hole: &Vec<Point>) -> (r: bool)
    ensures
        r == crosses_boundary(ua, ub, hole@),
{
    let n = hole.len();
    if n == 0 {
        return false;
    }
    let o = hole_orientation(hole);
    let mut i: usize = 0;
    while i < n
        invariant
            i <= n,
            n == hole@.len(),
            o == orientation(hole@),
            forall|j: int| 0 <= j < i ==> !#[trigger] crosses_hole_edge(ua, ub, hole@, j),
        decreases n - i,
    {
        let j = if i + 1 < n { i + 1 } else { 0 };
        let k = if j + 1 < n { j + 1 } else { 0 };
        if hole_edge_verdict(o, ua, ub, hole[i], hole[j], hole[k]) {
            assert(crosses_hole_edge(ua, ub, hole@, i as int));
            return true;
        }
        i = i + 1;
    }
    false
}

/// A hole edge gives the same verdict on a figure edge whichever end is named first.
pub proof fn lemma_crosses_at_symmetric(o: int, ua: Point, ub: Point, a: Point, b: Point, c: Point)
    ensures
        crosses_at(o, ua, ub, a, b, c) == crosses_at(o, ub, ua, a, b, c),
{
    lemma_area_swap(b, ua, ub);
    lemma_area_swap(a, ua, ub);
    lemma_area_swap(ua, a, b);
    lemma_area_swap(ub, a, b);
    lemma_area_swap(ua, b, a);
    lemma_area_swap(ub, b, a);
    lemma_area_swap(a, b, ua);
    lemma_area_swap(a, b, ub);
    crate::segment::lemma_dot_symmetric(crate::geometry::diff_of(ua, b), crate::geometry::diff_of(ub, b));
    crate::segment::lemma_dot_symmetric(crate::geometry::diff_of(ua, a), crate::geometry::diff_of(ub, a));
    assert(lies_between(ua, b, ub) == lies_between(ub, b, ua));
    assert(lies_between(ua, a, ub) == lies_between(ub, a, ua));
    assert(lies_between(a, ua, b) ==> area_of(b, a, ua) == 0);
    assert(lies_between(a, ub, b) ==> area_of(b, a, ub) == 0);
    crate::segment::lemma_segments_intersect_symmetric(ua, ub, a, b);
}

/// Whether a figure edge crosses the hole boundary does not depend on the order of its ends.
pub proof fn lemma_edge_intersect_hole_symmetric(ua: Point, ub: Point, hole: Seq<Point>)
    ensures
        crosses_boundary(ua, ub, hole) == crosses_boundary(ub, ua, hole),
{
    assert forall|i: int| 0 <= i < hole.len() implies crosses_hole_edge(ua, ub, hole, i)
        == crosses_hole_edge(ub, ua, hole, i) by {
        let n = hole.len() as int;
        lemma_crosses_at_symmetric(orientation(hole), ua, ub, hole[i], hole[next_index(n, i)], hole[next_index(n, next_index(n, i))]);
    }
    if crosses_boundary(ua, ub, hole) {
        let i = choose|i: int| 0 <= i < hole.len() && #[trigger] crosses_hole_edge(ua, ub, hole, i);
        assert(crosses_hole_edge(ub, ua, hole, i));
    }
    if crosses_boundary(ub, ua, hole) {
        let i = choose|i: int| 0 <= i < hole.len() && #[trigger] crosses_hole_edge(ub, ua, hole, i);
        assert(crosses_hole_edge(ua, ub, hole, i));
    }
}

} // verus!
