use holefit::boundary::{edge_intersect_hole, hole_edge_verdict, hole_orientation, interior};
use holefit::geometry::Point;

fn pt(x: i32, y: i32) -> Point {
    Point { x, y }
}

fn square() -> Vec<Point> {
    vec![pt(0, 0), pt(10, 0), pt(10, 10), pt(0, 10)]
}

#[test]
fn diagonal_of_square_stays_inside() {
    assert!(!edge_intersect_hole(pt(0, 0), pt(10, 10), &square()));
}

#[test]
fn edge_through_square_and_outside_crosses() {
    assert!(edge_intersect_hole(pt(-5, 5), pt(15, 5), &square()));
}

#[test]
fn edge_along_whole_hole_edge_is_clear() {
    assert!(!edge_intersect_hole(pt(0, 0), pt(10, 0), &square()));
    assert!(!edge_intersect_hole(pt(10, 0), pt(0, 0), &square()));
}

#[test]
fn edge_flush_along_part_of_hole_edge_is_clear() {
    assert!(!edge_intersect_hole(pt(2, 0), pt(8, 0), &square()));
    assert!(!edge_intersect_hole(pt(8, 0), pt(2, 0), &square()));
    let mut cw = square();
    cw.reverse();
    assert!(!edge_intersect_hole(pt(2, 0), pt(8, 0), &cw));
}

#[test]
fn edge_flush_then_past_hole_corner_crosses() {
    assert!(edge_intersect_hole(pt(2, 0), pt(15, 0), &square()));
    assert!(edge_intersect_hole(pt(-5, 0), pt(8, 0), &square()));
}

#[test]
fn clockwise_triangle_vertex_touch_does_not_cross() {
    let tri = vec![pt(0, 0), pt(0, 10), pt(10, 0)];
    assert!(!edge_intersect_hole(pt(2, 2), pt(10, 0), &tri));
    assert!(!edge_intersect_hole(pt(0, 0), pt(2, 2), &tri));
    assert!(edge_intersect_hole(pt(2, 2), pt(-3, -3), &tri));
    assert!(edge_intersect_hole(pt(2, 2), pt(12, 2), &tri));
}

#[test]
fn orientation_of_holes() {
    assert_eq!(hole_orientation(&square()), 1);
    let mut cw = square();
    cw.reverse();
    assert_eq!(hole_orientation(&cw), -1);
    let notched = vec![pt(0, 0), pt(10, 0), pt(10, 10), pt(5, 3), pt(0, 10)];
    assert_eq!(hole_orientation(&notched), 1);
}

#[test]
fn edge_touching_triangle_vertex_does_not_cross() {
    let tri = vec![pt(0, 0), pt(10, 0), pt(0, 10)];
    assert!(!edge_intersect_hole(pt(0, 0), pt(2, 2), &tri));
    assert!(!edge_intersect_hole(pt(2, 2), pt(0, 0), &tri));
    assert!(!edge_intersect_hole(pt(10, 0), pt(3, 3), &tri));
}

#[test]
fn edge_leaving_triangle_through_vertex_crosses() {
    let tri = vec![pt(0, 0), pt(10, 0), pt(0, 10)];
    assert!(edge_intersect_hole(pt(2, 2), pt(-3, -3), &tri));
}

#[test]
fn edge_inside_square_is_clear() {
    assert!(!edge_intersect_hole(pt(2, 3), pt(7, 8), &square()));
}

#[test]
fn edge_fully_outside_is_clear() {
    assert!(!edge_intersect_hole(pt(20, 20), pt(30, 25), &square()));
}

#[test]
fn edge_symmetry_on_values() {
    let sq = square();
    let cases = [
        (pt(0, 0), pt(10, 10)),
        (pt(-5, 5), pt(15, 5)),
        (pt(2, 0), pt(8, 0)),
        (pt(2, 0), pt(15, 0)),
        (pt(0, 0), pt(10, 0)),
        (pt(5, 5), pt(5, 12)),
        (pt(10, 0), pt(3, 4)),
    ];
    for (a, b) in cases.iter() {
        assert_eq!(edge_intersect_hole(*a, *b, &sq), edge_intersect_hole(*b, *a, &sq));
    }
}

#[test]
fn interior_cone_at_convex_and_reflex_vertices() {
    // convex corner of the square at (10, 0), entered from (0, 0), left towards (10, 10)
    assert!(interior(1, pt(0, 0), pt(10, 0), pt(10, 10), pt(5, 5)));
    assert!(!interior(1, pt(0, 0), pt(10, 0), pt(10, 10), pt(15, 5)));
    // the same corner of the square listed clockwise
    assert!(interior(-1, pt(10, 10), pt(10, 0), pt(0, 0), pt(5, 5)));
    assert!(!interior(-1, pt(10, 10), pt(10, 0), pt(0, 0), pt(15, 5)));
    // reflex corner at (5, 3) of a notched square
    assert!(interior(1, pt(10, 10), pt(5, 3), pt(0, 10), pt(5, 0)));
    assert!(!interior(1, pt(10, 10), pt(5, 3), pt(0, 10), pt(5, 8)));
}

#[test]
fn verdict_rules_in_order() {
    // rule 2: the start of the hole edge lies on the figure edge
    assert!(!hole_edge_verdict(1, pt(0, 0), pt(5, 5), pt(0, 0), pt(10, 0), pt(10, 10)));
    // rule 3: ua on the hole edge, ub outward
    assert!(hole_edge_verdict(1, pt(5, 0), pt(5, -5), pt(0, 0), pt(10, 0), pt(10, 10)));
    // rule 3: ua on the hole edge, ub inward
    assert!(!hole_edge_verdict(1, pt(5, 0), pt(5, 5), pt(0, 0), pt(10, 0), pt(10, 10)));
    // rule 3: ua on the hole edge, ub flush along it
    assert!(!hole_edge_verdict(1, pt(5, 0), pt(8, 0), pt(0, 0), pt(10, 0), pt(10, 10)));
    // rule 4: ub on the hole edge, ua outward
    assert!(hole_edge_verdict(1, pt(5, -5), pt(5, 0), pt(0, 0), pt(10, 0), pt(10, 10)));
    // rule 5: a proper crossing
    assert!(hole_edge_verdict(1, pt(5, -5), pt(5, 5), pt(0, 0), pt(10, 0), pt(10, 10)));
}
