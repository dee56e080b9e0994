use holefit::geometry::Point;
use holefit::polygon::inside;

fn pt(x: i32, y: i32) -> Point {
    Point { x, y }
}

fn square() -> Vec<Point> {
    vec![pt(0, 0), pt(10, 0), pt(10, 10), pt(0, 10)]
}

#[test]
fn square_center_inside_and_right_outside() {
    assert!(inside(pt(5, 5), &square()));
    assert!(!inside(pt(15, 5), &square()));
}

#[test]
fn boundary_points_are_inside() {
    let sq = square();
    assert!(inside(pt(5, 0), &sq));
    assert!(inside(pt(10, 5), &sq));
    assert!(inside(pt(5, 10), &sq));
    assert!(inside(pt(0, 5), &sq));
}

#[test]
fn every_vertex_is_inside() {
    let hole = vec![pt(0, 0), pt(7, 2), pt(12, 9), pt(4, 6), pt(-3, 11)];
    for v in hole.iter() {
        assert!(inside(*v, &hole));
    }
}

#[test]
fn far_outside_the_box_in_each_direction() {
    let hole = vec![pt(0, 0), pt(7, 2), pt(12, 9), pt(4, 6), pt(-3, 11)];
    assert!(!inside(pt(100, 5), &hole));
    assert!(!inside(pt(-100, 5), &hole));
    assert!(!inside(pt(5, 100), &hole));
    assert!(!inside(pt(5, -100), &hole));
}

#[test]
fn convex_polygon_interior() {
    let hex = vec![pt(0, 0), pt(10, -4), pt(20, 0), pt(20, 10), pt(10, 14), pt(0, 10)];
    assert!(inside(pt(10, 5), &hex));
    assert!(inside(pt(1, 1), &hex));
    assert!(inside(pt(19, 9), &hex));
    assert!(!inside(pt(21, 5), &hex));
}

#[test]
fn concave_notch_is_outside() {
    let hole = vec![pt(0, 0), pt(10, 0), pt(10, 10), pt(5, 3), pt(0, 10)];
    assert!(!inside(pt(5, 8), &hole));
    assert!(inside(pt(5, 2), &hole));
    assert!(inside(pt(2, 6), &hole));
}

#[test]
fn rotation_and_reversal_keep_the_answer() {
    let hole = vec![pt(0, 0), pt(10, 0), pt(10, 10), pt(5, 3), pt(0, 10)];
    let probes = [pt(5, 8), pt(5, 2), pt(2, 6), pt(5, 3), pt(10, 5), pt(-1, 3), pt(7, 5)];
    for p in probes.iter() {
        let expected = inside(*p, &hole);
        for k in 0..hole.len() {
            let mut rotated = hole[k..].to_vec();
            rotated.extend_from_slice(&hole[..k]);
            assert_eq!(inside(*p, &rotated), expected);
            let mut reversed = rotated.clone();
            reversed.reverse();
            assert_eq!(inside(*p, &reversed), expected);
        }
    }
}
