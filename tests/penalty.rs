use holefit::geometry::Point;
use holefit::parse::{canonical_edge, point_from_coords, SpecError};
use holefit::penalty::{compute_penalty, Penalty, Solution, Spec};

fn pt(x: i32, y: i32) -> Point {
    Point { x, y }
}

fn square() -> Vec<Point> {
    vec![pt(0, 0), pt(10, 0), pt(10, 10), pt(0, 10)]
}

#[test]
fn new_spec_is_empty() {
    let s = Spec::new();
    assert!(s.hole.is_empty() && s.edges.is_empty() && s.vertices.is_empty());
    assert_eq!(s.epsilon, 0);
}

#[test]
fn vertex_inside_and_outside_counts() {
    let spec = Spec::from_parts(square(), vec![], vec![pt(5, 5)], 0).unwrap();
    let p = compute_penalty(&Solution { nodes: vec![pt(5, 5)] }, &spec);
    assert_eq!(p.outside_penalty, 0);
    let p = compute_penalty(&Solution { nodes: vec![pt(15, 5)] }, &spec);
    assert_eq!(p.outside_penalty, 1);
}

#[test]
fn penalty_counts_edges_and_vertices() {
    let spec = Spec::from_parts(square(), vec![(0, 1), (1, 2), (0, 2)], vec![pt(0, 0), pt(0, 0), pt(0, 0)], 0).unwrap();
    let solution = Solution { nodes: vec![pt(0, 0), pt(10, 10), pt(15, 5)] };
    let p = compute_penalty(&solution, &spec);
    assert_eq!(p, Penalty { outside_penalty: 1, length_penalty: 0, intersect_penalty: 2 });
}

#[test]
fn penalty_of_valid_placement_is_zero() {
    let spec = Spec::from_parts(square(), vec![(0, 1)], vec![pt(0, 0), pt(0, 0)], 5).unwrap();
    let p = compute_penalty(&Solution { nodes: vec![pt(1, 1), pt(9, 9)] }, &spec);
    assert_eq!(p, Penalty { outside_penalty: 0, length_penalty: 0, intersect_penalty: 0 });
}

#[test]
fn from_parts_errors() {
    assert_eq!(Spec::from_parts(vec![pt(0, 0), pt(1, 0)], vec![], vec![], 0).unwrap_err(), SpecError::DegenerateHole);
    assert_eq!(Spec::from_parts(square(), vec![(0, 2)], vec![pt(0, 0), pt(1, 1)], 0).unwrap_err(), SpecError::EdgeOutOfRange);
}

#[test]
fn point_from_coords_range() {
    assert_eq!(point_from_coords(3, -4), Some(pt(3, -4)));
    assert_eq!(point_from_coords(2147483648, 0), None);
    assert_eq!(point_from_coords(0, -2147483649), None);
}

#[test]
fn canonical_edge_orders_indices() {
    assert_eq!(canonical_edge(4, 1), Some((1, 4)));
    assert_eq!(canonical_edge(1, 4), Some((1, 4)));
    assert_eq!(canonical_edge(-1, 4), None);
}

#[test]
fn from_json_reads_problem() {
    let text = r#"{"hole": [[0,0],[10,0],[10,10],[0,10]],
        "figure": {"edges": [[2,0],[1,2]], "vertices": [[1,1],[2,2],[3,3]]},
        "epsilon": 150000}"#;
    let spec = Spec::from_json(text).unwrap();
    assert_eq!(spec.hole, square());
    assert_eq!(spec.edges, vec![(0, 2), (1, 2)]);
    assert_eq!(spec.vertices, vec![pt(1, 1), pt(2, 2), pt(3, 3)]);
    assert_eq!(spec.epsilon, 150000);
}

#[test]
fn from_json_errors() {
    let ok_figure = r#""figure": {"edges": [[0,1]], "vertices": [[1,1],[2,2]]}"#;
    let hole = r#""hole": [[0,0],[10,0],[10,10]]"#;
    assert_eq!(Spec::from_json("not json").unwrap_err(), SpecError::InvalidJson);
    let t = format!("{{{}, \"epsilon\": 1}}", ok_figure);
    assert_eq!(Spec::from_json(&t).unwrap_err(), SpecError::InvalidHole);
    let t = format!("{{{}, \"figure\": {{\"vertices\": [[1,1]]}}, \"epsilon\": 1}}", hole);
    assert_eq!(Spec::from_json(&t).unwrap_err(), SpecError::InvalidEdges);
    let t = format!("{{{}, \"figure\": {{\"edges\": [[0,1]]}}, \"epsilon\": 1}}", hole);
    assert_eq!(Spec::from_json(&t).unwrap_err(), SpecError::InvalidVertices);
    let t = format!("{{{}, {}}}", hole, ok_figure);
    assert_eq!(Spec::from_json(&t).unwrap_err(), SpecError::InvalidEpsilon);
    let t = format!("{{\"hole\": [[0,0],[1,1]], {}, \"epsilon\": 1}}", ok_figure);
    assert_eq!(Spec::from_json(&t).unwrap_err(), SpecError::DegenerateHole);
    let t = format!("{{{}, \"figure\": {{\"edges\": [[0,5]], \"vertices\": [[1,1]]}}, \"epsilon\": 1}}", hole);
    assert_eq!(Spec::from_json(&t).unwrap_err(), SpecError::EdgeOutOfRange);
}
