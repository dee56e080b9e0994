//! Point-in-polygon by ray crossing, with the boundary counted as inside.

use vstd::prelude::*;
use crate::geometry::{Point, area, sign, area_of, sign_of};

verus! {

/// The index after `i` around a polygon of `n` vertices.
pub open spec fn next_index(n: int, i: int) -> int {
    if i + 1 < n {
        i + 1
    } else {
        0
    }
}

/// The start of edge `i` of `poly`.
pub open spec fn edge_from(poly: Seq<Point>, i: int) -> Point {
    poly[i]
}

/// The end of edge `i` of `poly`: the vertex after its start, the first after the last.
pub open spec fn edge_to(poly: Seq<Point>, i: int) -> Point {
    poly[next_index(poly.len() as int, i)]
}

/// The horizontal line through `p` separates `u` from `v`: one lies above it, the other
/// on it or below.
pub open spec fn straddles(p: Point, u: Point, v: Point) -> bool {
    (u.y > p.y) != (v.y > p.y)
}

/// `p` lies on the edge from `u` to `v`, found either on a horizontal edge at its height
/// or on an edge that `p`'s horizontal line separates.
pub open spec fn on_edge(p: Point, u: Point, v: Point) -> bool {
    ||| (u.y == p.y && v.y == p.y && sign_of(u.x - p.x) * sign_of(v.x - p.x) <= 0)
    ||| (straddles(p, u, v) && area_of(p, u, v) == 0)
}

/// The edge from `u` to `v` settles that `p` is in: `p` is its start or lies on it.
pub open spec fn edge_hits(p: Point, u: Point, v: Point) -> bool {
    u == p || on_edge(p, u, v)
}

/// The edge from `u` to `v` flips the parity of the ray from `p`.
pub open spec fn edge_flips(p: Point, u: Point, v: Point) -> bool {
    straddles(p, u, v) && ((area_of(p, u, v) > 0) == (u.y <= p.y))
}

/// One entry per edge of `poly`: whether it flips the parity for `p`.
pub open spec fn crossing_flips(p: Point, poly: Seq<Point>) -> Seq<bool> {
    Seq::new(poly.len(), |i: int| edge_flips(p, edge_from(poly, i), edge_to(poly, i)))
}

/// Whether an odd number of the entries of `s` are true.
pub open spec fn xor_all(s: Seq<bool>) -> bool
    decreases s.len(),
{
    if s.len() == 0 {
        false
    } else {
        xor_all(s.drop_last()) != s.last()
    }
}

/// Some edge of `poly` settles that `p` is in.
pub open spec fn touches_boundary(p: Point, poly: Seq<Point>) -> bool {
    exists|i: int| 0 <= i < poly.len() && #[trigger] edge_hits(p, edge_from(poly, i), edge_to(poly, i))
}

/// `p` is inside `poly` or on its boundary.
pub open spec fn polygon_contains(p: Point, poly: Seq<Point>) -> bool {
    touches_boundary(p, poly) || xor_all(crossing_flips(p, poly))
}

/// Whether `p` lies inside the polygon `hole` or on its boundary.
pub fn inside(p: Point, hole: &Vec<Point>) -> (r: bool)
    ensures
        r == polygon_contains(p, hole@),
{
    let n = hole.len();
    let ghost poly = hole@;
    let mut ret = false;
    let mut i: usize = 0;
    while i < n
        invariant
            i <= n,
            n == poly.len(),
            poly == hole@,
            forall|j: int| 0 <= j < i ==> !#[trigger] edge_hits(p, edge_from(poly, j), edge_to(poly, j)),
            ret == xor_all(crossing_flips(p, poly).take(i as int)),
        decreases n - i,
    {
        let u = hole[i];
        let v = if i + 1 < n { hole[i + 1] } else { hole[0] };
        assert(u == edge_from(poly, i as int) && v == edge_to(poly, i as int));
        if u == p {
            assert(edge_hits(p, u, v));
            return true;
        }
        let su = sign(u.x as i128 - p.x as i128);
        let sv = sign(v.x as i128 - p.x as i128);
        assert(-1 <= su * sv <= 1) by (nonlinear_arith)
            requires
                -1 <= su <= 1,
                -1 <= sv <= 1,
        ;
        if u.y == p.y && v.y == p.y && su * sv <= 0 {
            assert(edge_hits(p, u, v));
            return true;
        }
        if (u.y > p.y) != (v.y > p.y) {
            let slope = area(p, u, v);
            if slope == 0 {
                assert(edge_hits(p, u, v));
                return true;
            }
            ret = ret != ((slope > 0) == (u.y <= p.y));
        }
        assert(crossing_flips(p, poly).take(i + 1).drop_last() =~= crossing_flips(p, poly).take(i as int));
        i = i + 1;
    }
    assert(crossing_flips(p, poly).take(n as int) =~= crossing_flips(p, poly));
    ret
}

/// Every vertex of a polygon is inside it.
pub proof fn lemma_vertex_inside(p: Point, poly: Seq<Point>, k: int)
    requires
        0 <= k < poly.len(),
        poly[k] == p,
    ensures
        polygon_contains(p, poly),
{
    assert(edge_hits(p, edge_from(poly, k), edge_to(poly, k)));
}

/// The parity of a concatenation is the parity of the parts combined.
pub proof fn lemma_xor_concat(a: Seq<bool>, b: Seq<bool>)
    ensures
        xor_all(a + b) == (xor_all(a) != xor_all(b)),
    decreases b.len(),
{
    if b.len() == 0 {
        assert(a + b =~= a);
    } else {
        assert((a + b).drop_last() =~= a + b.drop_last());
        lemma_xor_concat(a, b.drop_last());
    }
}

/// `poly` started from its vertex `k` instead of its first.
pub open spec fn rotated(poly: Seq<Point>, k: int) -> Seq<Point> {
    poly.subrange(k, poly.len() as int) + poly.subrange(0, k)
}

/// The index in `poly` of vertex `i` of `rotated(poly, k)`.
pub open spec fn rotated_index(n: int, k: int, i: int) -> int {
    if i + k < n {
        i + k
    } else {
        i + k - n
    }
}

proof fn lemma_rotated_edges(poly: Seq<Point>, k: int, i: int)
    requires
        0 <= k < poly.len(),
        0 <= i < poly.len(),
    ensures
        edge_from(rotated(poly, k), i) == edge_from(poly, rotated_index(poly.len() as int, k, i)),
        edge_to(rotated(poly, k), i) == edge_to(poly, rotated_index(poly.len() as int, k, i)),
{
    let n = poly.len() as int;
    let q = rotated(poly, k);
    assert(q.len() == n);
    assert(q[i] == poly[rotated_index(n, k, i)]);
    let j = next_index(n, i);
    assert(q[j] == poly[rotated_index(n, k, j)]);
}

/// Whether a point is inside a polygon does not depend on which vertex the polygon's
/// list starts from.
pub proof fn lemma_inside_rotation(p: Point, poly: Seq<Point>, k: int)
    requires
        0 <= k < poly.len(),
    ensures
        polygon_contains(p, rotated(poly, k)) == polygon_contains(p, poly),
{
    let n = poly.len() as int;
    let q = rotated(poly, k);
    assert forall|i: int| 0 <= i < n implies edge_from(q, i) == edge_from(poly, rotated_index(n, k, i))
        && edge_to(q, i) == edge_to(poly, rotated_index(n, k, i)) by {
        lemma_rotated_edges(poly, k, i);
    }
    if touches_boundary(p, q) {
        let i = choose|i: int| 0 <= i < q.len() && #[trigger] edge_hits(p, edge_from(q, i), edge_to(q, i));
        let j = rotated_index(n, k, i);
        assert(edge_hits(p, edge_from(poly, j), edge_to(poly, j)));
    }
    if touches_boundary(p, poly) {
        let j = choose|j: int| 0 <= j < poly.len() && #[trigger] edge_hits(p, edge_from(poly, j), edge_to(poly, j));
        let i = if j >= k { j - k } else { j + n - k };
        assert(rotated_index(n, k, i) == j);
        assert(edge_hits(p, edge_from(q, i), edge_to(q, i)));
    }
    let f = crossing_flips(p, poly);
    assert(crossing_flips(p, q) =~= f.subrange(k, n) + f.subrange(0, k));
    assert(f =~= f.subrange(0, k) + f.subrange(k, n));
    lemma_xor_concat(f.subrange(k, n), f.subrange(0, k));
    lemma_xor_concat(f.subrange(0, k), f.subrange(k, n));
}

proof fn lemma_xor_single(x: bool)
    ensures
        xor_all(seq![x]) == x,
{
    assert(seq![x].drop_last() =~= Seq::<bool>::empty());
    assert(xor_all(Seq::<bool>::empty()) == false);
    assert(seq![x].last() == x);
}

/// `s` in the opposite order.
pub open spec fn reversed<T>(s: Seq<T>) -> Seq<T> {
    Seq::new(s.len(), |i: int| s[s.len() - 1 - i])
}

/// Reversing a sequence keeps its parity.
pub proof fn lemma_xor_reversed(s: Seq<bool>)
    ensures
        xor_all(reversed(s)) == xor_all(s),
    decreases s.len(),
{
    if s.len() > 0 {
        let t = s.drop_last();
        lemma_xor_reversed(t);
        assert(reversed(s) =~= seq![s.last()] + reversed(t));
        lemma_xor_concat(seq![s.last()], reversed(t));
        lemma_xor_single(s.last());
    }
}

/// The edge of `poly` that edge `i` of `reversed(poly)` runs along, in the other direction.
pub open spec fn reversed_edge(n: int, i: int) -> int {
    if i + 1 < n {
        n - 2 - i
    } else {
        n - 1
    }
}

proof fn lemma_on_edge_symmetric(p: Point, u: Point, v: Point)
    ensures
        on_edge(p, u, v) == on_edge(p, v, u),
        !edge_hits(p, u, v) && !on_edge(p, v, u) ==> edge_flips(p, u, v) == edge_flips(p, v, u),
{
    crate::segment::lemma_area_swap(p, u, v);
    let (a, b) = (sign_of(u.x - p.x), sign_of(v.x - p.x));
    assert(a * b == b * a) by (nonlinear_arith);
}

/// Whether a point is inside a polygon does not depend on the winding order of its list.
pub proof fn lemma_inside_reversal(p: Point, poly: Seq<Point>)
    ensures
        polygon_contains(p, reversed(poly)) == polygon_contains(p, poly),
{
    let n = poly.len() as int;
    let r = reversed(poly);
    if n == 0 {
        assert(crossing_flips(p, r) =~= crossing_flips(p, poly));
        return;
    }
    assert forall|i: int| 0 <= i < n implies edge_from(r, i) == edge_to(poly, reversed_edge(n, i))
        && edge_to(r, i) == edge_from(poly, reversed_edge(n, i)) by {
        assert(r[i] == poly[n - 1 - i]);
        assert(r[next_index(n, i)] == poly[n - 1 - next_index(n, i)]);
    }
    assert forall|i: int| 0 <= i < n implies on_edge(p, edge_from(r, i), edge_to(r, i))
        == on_edge(p, edge_from(poly, reversed_edge(n, i)), edge_to(poly, reversed_edge(n, i))) by {
        lemma_on_edge_symmetric(p, edge_from(r, i), edge_to(r, i));
    }
    if touches_boundary(p, r) {
        let i = choose|i: int| 0 <= i < r.len() && #[trigger] edge_hits(p, edge_from(r, i), edge_to(r, i));
        if edge_from(r, i) == p {
            assert(edge_from(poly, n - 1 - i) == p);
            assert(edge_hits(p, edge_from(poly, n - 1 - i), edge_to(poly, n - 1 - i)));
        } else {
            let j = reversed_edge(n, i);
            assert(edge_hits(p, edge_from(poly, j), edge_to(poly, j)));
        }
    }
    if touches_boundary(p, poly) {
        let j = choose|j: int| 0 <= j < poly.len() && #[trigger] edge_hits(p, edge_from(poly, j), edge_to(poly, j));
        if edge_from(poly, j) == p {
            assert(edge_from(r, n - 1 - j) == r[n - 1 - j]);
            assert(edge_hits(p, edge_from(r, n - 1 - j), edge_to(r, n - 1 - j)));
        } else {
            let i = reversed_edge(n, j);
            assert(reversed_edge(n, i) == j);
            assert(edge_hits(p, edge_from(r, i), edge_to(r, i)));
        }
    }
    if !touches_boundary(p, poly) {
        let f = crossing_flips(p, poly);
        assert forall|i: int| 0 <= i < n implies crossing_flips(p, r)[i] == f[reversed_edge(n, i)] by {
            let j = reversed_edge(n, i);
            assert(!edge_hits(p, edge_from(poly, j), edge_to(poly, j)));
            lemma_on_edge_symmetric(p, edge_from(poly, j), edge_to(poly, j));
        }
        let head = f.subrange(0, n - 1);
        assert(crossing_flips(p, r) =~= reversed(head) + seq![f[n - 1]]);
        lemma_xor_concat(reversed(head), seq![f[n - 1]]);
        lemma_xor_reversed(head);
        assert(f.drop_last() =~= head);
        lemma_xor_single(f[n - 1]);
        assert(f.last() == f[n - 1]);
    }
}

proof fn lemma_xor_all_false(s: Seq<bool>)
    requires
        forall|i: int| 0 <= i < s.len() ==> !s[i],
    ensures
        !xor_all(s),
    decreases s.len(),
{
    if s.len() > 0 {
        lemma_xor_all_false(s.drop_last());
    }
}

proof fn lemma_changes_prefix(b: Seq<bool>, k: int)
    requires
        0 <= k < b.len(),
    ensures
        xor_all(Seq::new(b.len(), |i: int| b[i] != b[next_index(b.len() as int, i)]).take(k)) == (b[0] != b[k]),
    decreases k,
{
    let s = Seq::new(b.len(), |i: int| b[i] != b[next_index(b.len() as int, i)]);
    if k > 0 {
        lemma_changes_prefix(b, k - 1);
        assert(s.take(k).drop_last() =~= s.take(k - 1));
    } else {
        assert(s.take(0).len() == 0);
    }
}

/// The changes between neighbours, taken around a cycle, come in an even number.
proof fn lemma_xor_of_changes(b: Seq<bool>)
    ensures
        !xor_all(Seq::new(b.len(), |i: int| b[i] != b[next_index(b.len() as int, i)])),
{
    let n = b.len() as int;
    let s = Seq::new(b.len(), |i: int| b[i] != b[next_index(n, i)]);
    if n == 0 {
        return;
    }
    lemma_changes_prefix(b, n - 1);
    assert(s.take(n - 1) =~= s.drop_last());
}

/// Twice the area of `p, u, v` where both `u` and `v` lie to one side of `p` and the
/// horizontal line through `p` separates them.
proof fn lemma_side_area(p: Point, u: Point, v: Point)
    requires
        straddles(p, u, v),
    ensures
        u.x < p.x && v.x < p.x ==> (area_of(p, u, v) > 0) == (u.y > p.y) && area_of(p, u, v) != 0,
        u.x > p.x && v.x > p.x ==> (area_of(p, u, v) > 0) == (u.y <= p.y) && area_of(p, u, v) != 0,
{
    let (ux, uy, vx, vy) = (u.x - p.x, u.y - p.y, v.x - p.x, v.y - p.y);
    assert(area_of(p, u, v) == ux * vy - uy * vx);
    if uy <= 0 {
        assert(vy > 0);
        assert(ux < 0 && vx < 0 ==> ux * vy - uy * vx < 0) by (nonlinear_arith)
            requires uy <= 0, vy > 0;
        assert(ux > 0 && vx > 0 ==> ux * vy - uy * vx > 0) by (nonlinear_arith)
            requires uy <= 0, vy > 0;
    } else {
        assert(vy <= 0);
        assert(ux < 0 && vx < 0 ==> ux * vy - uy * vx > 0) by (nonlinear_arith)
            requires uy > 0, vy <= 0;
        assert(ux > 0 && vx > 0 ==> ux * vy - uy * vx < 0) by (nonlinear_arith)
            requires uy > 0, vy <= 0;
    }
}

/// All vertices of `poly` lie strictly on one side of `p`: left, right, above or below.
pub open spec fn beyond_bounding_box(p: Point, poly: Seq<Point>) -> bool {
    ||| forall|i: int| 0 <= i < poly.len() ==> (#[trigger] poly[i]).x < p.x
    ||| forall|i: int| 0 <= i < poly.len() ==> (#[trigger] poly[i]).x > p.x
    ||| forall|i: int| 0 <= i < poly.len() ==> (#[trigger] poly[i]).y < p.y
    ||| forall|i: int| 0 <= i < poly.len() ==> (#[trigger] poly[i]).y > p.y
}

/// A point outside a polygon's bounding box is not inside the polygon.
pub proof fn lemma_outside_bounding_box(p: Point, poly: Seq<Point>)
    requires
        beyond_bounding_box(p, poly),
    ensures
        !polygon_contains(p, poly),
{
    let n = poly.len() as int;
    let f = crossing_flips(p, poly);
    assert forall|i: int| 0 <= i < n implies !#[trigger] edge_hits(p, edge_from(poly, i), edge_to(poly, i)) by {
        let (u, v) = (edge_from(poly, i), edge_to(poly, i));
        let j = next_index(n, i);
        assert(u == poly[i] && v == poly[j]);
        if straddles(p, u, v) {
            lemma_side_area(p, u, v);
        }
        if forall|k: int| 0 <= k < n ==> (#[trigger] poly[k]).x < p.x {
            assert(u.x < p.x && v.x < p.x);
            assert(sign_of(u.x - p.x) * sign_of(v.x - p.x) == 1);
        } else if forall|k: int| 0 <= k < n ==> (#[trigger] poly[k]).x > p.x {
            assert(u.x > p.x && v.x > p.x);
            assert(sign_of(u.x - p.x) * sign_of(v.x - p.x) == 1);
        } else if forall|k: int| 0 <= k < n ==> (#[trigger] poly[k]).y < p.y {
            assert(u.y < p.y && v.y < p.y);
        } else {
            assert(u.y > p.y && v.y > p.y);
        }
        assert(!on_edge(p, u, v));
    }
    let right = forall|i: int| 0 <= i < n ==> (#[trigger] poly[i]).x < p.x;
    let left = forall|i: int| 0 <= i < n ==> (#[trigger] poly[i]).x > p.x;
    if left && !right {
        let b = Seq::new(poly.len(), |i: int| poly[i].y > p.y);
        assert forall|i: int| 0 <= i < n implies f[i] == (b[i] != b[next_index(n, i)]) by {
            let (u, v) = (edge_from(poly, i), edge_to(poly, i));
            assert(v == poly[next_index(n, i)]);
            if straddles(p, u, v) {
                lemma_side_area(p, u, v);
            }
        }
        lemma_xor_of_changes(b);
        assert(f =~= Seq::new(b.len(), |i: int| b[i] != b[next_index(b.len() as int, i)]));
    } else {
        assert forall|i: int| 0 <= i < n implies !f[i] by {
            let (u, v) = (edge_from(poly, i), edge_to(poly, i));
            assert(v == poly[next_index(n, i)]);
            if straddles(p, u, v) {
                lemma_side_area(p, u, v);
            }
        }
        lemma_xor_all_false(f);
    }
}

} // verus!
