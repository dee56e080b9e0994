//! Building a problem from its JSON text: `hole`, `figure.vertices`, `figure.edges` and
//! `epsilon`.

use vstd::prelude::*;
use crate::geometry::Point;
use crate::penalty::Spec;

verus! {

#[verifier::external_type_specification]
#[verifier::external_body]
pub struct ExJsonValue(serde_json::Value);

#[verifier::external_type_specification]
#[verifier::external_body]
pub struct ExJsonError(serde_json::Error);

/// Why a problem could not be built.
#[derive(Clone, Copy, Debug, PartialEq, Eq, Structural)]
pub enum SpecError {
    /// The text is not JSON.
    InvalidJson,
    /// `hole` is missing or is not a list of integer pairs.
    InvalidHole,
    /// `figure.edges` is missing or is not a list of pairs of vertex indices.
    InvalidEdges,
    /// `figure.vertices` is missing or is not a list of integer pairs.
    InvalidVertices,
    /// `epsilon` is missing or is not an integer.
    InvalidEpsilon,
    /// The hole has fewer than three vertices.
    DegenerateHole,
    /// An edge names a vertex that the figure does not have.
    EdgeOutOfRange,
}

/// What serde_json makes of a JSON text, where it is JSON.
pub uninterp spec fn json_of(text: Seq<char>) -> Option<serde_json::Value>;

/// The member `key` of a JSON object, where the value is an object that has it.
pub uninterp spec fn json_field_of(v: serde_json::Value, key: Seq<char>) -> Option<serde_json::Value>;

/// The items of a JSON array, where the value is an array.
pub uninterp spec fn json_array_of(v: serde_json::Value) -> Option<Seq<serde_json::Value>>;

/// A JSON integer that fits in 64 bits, where the value is one.
pub uninterp spec fn json_i64_of(v: serde_json::Value) -> Option<i64>;

/// Relies on serde_json::from_str, which parses JSON text into a value; the outcome
/// depends on the text alone.
#[verifier::external_body]
fn parse_json(text: &str) -> (r: Result<serde_json::Value, serde_json::Error>)
    ensures
        r.is_ok() == json_of(text@).is_some(),
        r matches Ok(v) ==> json_of(text@) == Some(v),
{
    serde_json::from_str(text)
}

/// Relies on serde_json::Value::get, which looks up a key of a JSON object.
#[verifier::external_body]
fn json_field<'a>(v: &'a serde_json::Value, key: &str) -> (r: Option<&'a serde_json::Value>)
    ensures
        r.is_some() == json_field_of(*v, key@).is_some(),
        r matches Some(x) ==> json_field_of(*v, key@) == Some(*x),
{
    v.get(key)
}

/// Relies on serde_json::Value::as_array, which gives the items of a JSON array.
#[verifier::external_body]
fn json_items(v: &serde_json::Value) -> (r: Option<&Vec<serde_json::Value>>)
    ensures
        r.is_some() == json_array_of(*v).is_some(),
        r matches Some(items) ==> json_array_of(*v) == Some(items@),
{
    v.as_array()
}

/// Relies on serde_json::Value::as_i64, which gives a JSON integer that fits in 64 bits.
#[verifier::external_body]
fn json_int(v: &serde_json::Value) -> (r: Option<i64>)
    ensures
        r == json_i64_of(*v),
{
    v.as_i64()
}

/// The point `(x, y)`, where both fit in 32 bits.
pub open spec fn point_of_coords(x: i64, y: i64) -> Option<Point> {
    if i32::MIN <= x <= i32::MAX && i32::MIN <= y <= i32::MAX {
        Some(Point { x: x as i32, y: y as i32 })
    } else {
        None
    }
}

/// The edge between vertices `ia` and `ib`, smaller index first, where both are indices.
pub open spec fn edge_of_indices(ia: i64, ib: i64) -> Option<(usize, usize)> {
    if 0 <= ia <= usize::MAX && 0 <= ib <= usize::MAX {
        if ia <= ib {
            Some((ia as usize, ib as usize))
        } else {
            Some((ib as usize, ia as usize))
        }
    } else {
        None
    }
}

/// The first two items of a JSON array, where both are 64-bit integers.
pub open spec fn int_pair_of(v: serde_json::Value) -> Option<(i64, i64)> {
    match json_array_of(v) {
        Some(items) => if items.len() >= 2 {
            match (json_i64_of(items[0]), json_i64_of(items[1])) {
                (Some(x), Some(y)) => Some((x, y)),
                _ => None,
            }
        } else {
            None
        },
        None => None,
    }
}

/// The point that a JSON value `[x, y]` holds.
pub open spec fn point_of_json(v: serde_json::Value) -> Option<Point> {
    match int_pair_of(v) {
        Some(xy) => point_of_coords(xy.0, xy.1),
        None => None,
    }
}

/// The edge that a JSON value `[ia, ib]` holds, smaller index first.
pub open spec fn edge_of_json(v: serde_json::Value) -> Option<(usize, usize)> {
    match int_pair_of(v) {
        Some(ab) => edge_of_indices(ab.0, ab.1),
        None => None,
    }
}

/// The points of a JSON array value, where every item is a point.
pub open spec fn points_of_json(v: Option<serde_json::Value>) -> Option<Seq<Point>> {
    match v {
        Some(v) => match json_array_of(v) {
            Some(items) => if forall|i: int| 0 <= i < items.len() ==> (#[trigger] point_of_json(items[i])).is_some() {
                Some(Seq::new(items.len(), |i: int| point_of_json(items[i]).unwrap()))
            } else {
                None
            },
            None => None,
        },
        None => None,
    }
}

/// The edges of a JSON array value, where every item is an edge.
pub open spec fn edges_of_json(v: Option<serde_json::Value>) -> Option<Seq<(usize, usize)>> {
    match v {
        Some(v) => match json_array_of(v) {
            Some(items) => if forall|i: int| 0 <= i < items.len() ==> (#[trigger] edge_of_json(items[i])).is_some() {
                Some(Seq::new(items.len(), |i: int| edge_of_json(items[i]).unwrap()))
            } else {
                None
            },
            None => None,
        },
        None => None,
    }
}

/// The member `key` of the object that `v` may hold.
pub open spec fn member_of(v: Option<serde_json::Value>, key: Seq<char>) -> Option<serde_json::Value> {
    match v {
        Some(v) => json_field_of(v, key),
        None => None,
    }
}

/// The 64-bit integer that `v` may hold.
pub open spec fn int_of(v: Option<serde_json::Value>) -> Option<i64> {
    match v {
        Some(v) => json_i64_of(v),
        None => None,
    }
}

/// `r` is what a problem built from these parts comes to: an error for a hole of fewer
/// than three vertices, then for an edge that names a missing vertex, else the problem.
pub open spec fn assembled(
    hole: Seq<Point>,
    edges: Seq<(usize, usize)>,
    vertices: Seq<Point>,
    epsilon: i64,
    r: Result<Spec, SpecError>,
) -> bool {
    if hole.len() < 3 {
        r == Err::<Spec, SpecError>(SpecError::DegenerateHole)
    } else if exists|k: int| 0 <= k < edges.len() && !((#[trigger] edges[k]).0 < vertices.len() && edges[k].1 < vertices.len()) {
        r == Err::<Spec, SpecError>(SpecError::EdgeOutOfRange)
    } else {
        r matches Ok(s) && s.hole@ == hole && s.edges@ == edges && s.vertices@ == vertices && s.epsilon == epsilon
    }
}

/// `r` is what the JSON text `text` comes to: the first malformed part in the order
/// text, `hole`, `figure.edges`, `figure.vertices`, `epsilon` gives its error; else the
/// problem built from the parts.
pub open spec fn read_from(text: Seq<char>, r: Result<Spec, SpecError>) -> bool {
    match json_of(text) {
        None => r == Err::<Spec, SpecError>(SpecError::InvalidJson),
        Some(data) => {
            let figure = json_field_of(data, "figure"@);
            match points_of_json(json_field_of(data, "hole"@)) {
                None => r == Err::<Spec, SpecError>(SpecError::InvalidHole),
                Some(hole) => match edges_of_json(member_of(figure, "edges"@)) {
                    None => r == Err::<Spec, SpecError>(SpecError::InvalidEdges),
                    Some(edges) => match points_of_json(member_of(figure, "vertices"@)) {
                        None => r == Err::<Spec, SpecError>(SpecError::InvalidVertices),
                        Some(vertices) => match int_of(json_field_of(data, "epsilon"@)) {
                            None => r == Err::<Spec, SpecError>(SpecError::InvalidEpsilon),
                            Some(epsilon) => assembled(hole, edges, vertices, epsilon, r),
                        },
                    },
                },
            }
        },
    }
}

/// The point `(x, y)`, where both fit in 32 bits.
pub fn point_from_coords(x: i64, y: i64) -> (r: Option<Point>)
    ensures
        r == point_of_coords(x, y),
{
    if i32::MIN as i64 <= x && x <= i32::MAX as i64 && i32::MIN as i64 <= y && y <= i32::MAX as i64 {
        Some(Point { x: x as i32, y: y as i32 })
    } else {
        None
    }
}

/// The edge between vertices `ia` and `ib`, smaller index first, where both are
/// non-negative indices.
pub fn canonical_edge(ia: i64, ib: i64) -> (r: Option<(usize, usize)>)
    ensures
        r == edge_of_indices(ia, ib),
{
    if ia < 0 || ib < 0 || ia as u64 > usize::MAX as u64 || ib as u64 > usize::MAX as u64 {
        None
    } else if ia <= ib {
        Some((ia as usize, ib as usize))
    } else {
        Some((ib as usize, ia as usize))
    }
}

/// The first two items of a JSON array, where both are 64-bit integers.
fn int_pair(v: &serde_json::Value) -> (r: Option<(i64, i64)>)
    ensures
        r == int_pair_of(*v),
{
    match json_items(v) {
        Some(items) => {
            if items.len() < 2 {
                return None;
            }
            match (json_int(&items[0]), json_int(&items[1])) {
                (Some(x), Some(y)) => Some((x, y)),
                _ => None,
            }
        },
        None => None,
    }
}

impl Point {
    /// The point held by a JSON pair `[x, y]` of 32-bit integers.
    pub fn from_json(v: &serde_json::Value) -> (r: Option<Point>)
        ensures
            r == point_of_json(*v),
    {
        match int_pair(v) {
            Some((x, y)) => point_from_coords(x, y),
            None => None,
        }
    }
}

/// The value that a borrowed option refers to.
pub open spec fn owned(v: Option<&serde_json::Value>) -> Option<serde_json::Value> {
    match v {
        Some(x) => Some(*x),
        None => None,
    }
}

/// Every edge has its smaller index first.
pub open spec fn edges_canonical(edges: Seq<(usize, usize)>) -> bool {
    forall|k: int| 0 <= k < edges.len() ==> (#[trigger] edges[k]).0 <= edges[k].1
}

/// The points of a JSON list of pairs.
fn points_from_json(value: Option<&serde_json::Value>) -> (r: Option<Vec<Point>>)
    ensures
        r.is_some() == points_of_json(owned(value)).is_some(),
        r matches Some(ps) ==> points_of_json(owned(value)) == Some(ps@),
{
    let v = match value {
        Some(v) => v,
        None => return None,
    };
    let items = match json_items(v) {
        Some(items) => items,
        None => return None,
    };
    let mut points: Vec<Point> = Vec::new();
    let mut i: usize = 0;
    while i < items.len()
        invariant
            i <= items@.len(),
            json_array_of(*v) == Some(items@),
            owned(value) == Some(*v),
            points@.len() == i,
            forall|j: int| 0 <= j < i ==> (#[trigger] point_of_json(items@[j])) == Some(points@[j]),
        decreases items@.len() - i,
    {
        match Point::from_json(&items[i]) {
            Some(p) => points.push(p),
            None => {
                assert(point_of_json(items@[i as int]).is_none());
                return None;
            },
        }
        i = i + 1;
    }
    assert(points@ =~= Seq::new(items@.len(), |j: int| point_of_json(items@[j]).unwrap()));
    Some(points)
}

/// The edges of a JSON list of index pairs, each with its smaller index first.
fn edges_from_json(value: Option<&serde_json::Value>) -> (r: Option<Vec<(usize, usize)>>)
    ensures
        r.is_some() == edges_of_json(owned(value)).is_some(),
        r matches Some(es) ==> edges_of_json(owned(value)) == Some(es@),
{
    let v = match value {
        Some(v) => v,
        None => return None,
    };
    let items = match json_items(v) {
        Some(items) => items,
        None => return None,
    };
    let mut edges: Vec<(usize, usize)> = Vec::new();
    let mut i: usize = 0;
    while i < items.len()
        invariant
            i <= items@.len(),
            json_array_of(*v) == Some(items@),
            owned(value) == Some(*v),
            edges@.len() == i,
            forall|j: int| 0 <= j < i ==> (#[trigger] edge_of_json(items@[j])) == Some(edges@[j]),
        decreases items@.len() - i,
    {
        let edge = match int_pair(&items[i]) {
            Some((ia, ib)) => canonical_edge(ia, ib),
            None => None,
        };
        match edge {
            Some(e) => edges.push(e),
            None => {
                assert(edge_of_json(items@[i as int]).is_none());
                return None;
            },
        }
        i = i + 1;
    }
    assert(edges@ =~= Seq::new(items@.len(), |j: int| edge_of_json(items@[j]).unwrap()));
    Some(edges)
}

impl Spec {
    /// A problem from its parts, where the hole has at least three vertices and every
    /// edge names vertices of the figure.
    pub fn from_parts(hole: Vec<Point>, edges: Vec<(usize, usize)>, vertices: Vec<Point>, epsilon: i64) -> (r: Result<Spec, SpecError>)
        ensures
            assembled(hole@, edges@, vertices@, epsilon, r),
            r matches Ok(s) ==> s.edges_within(s.vertices@),
    {
        if hole.len() < 3 {
            return Err(SpecError::DegenerateHole);
        }
        let mut i: usize = 0;
        while i < edges.len()
            invariant
                hole@.len() >= 3,
                forall|k: int| 0 <= k < i ==> (#[trigger] edges@[k]).0 < vertices@.len() && edges@[k].1 < vertices@.len(),
            decreases edges@.len() - i,
        {
            let (ia, ib) = edges[i];
            if ia >= vertices.len() || ib >= vertices.len() {
                assert(!(edges@[i as int].0 < vertices@.len() && edges@[i as int].1 < vertices@.len()));
                return Err(SpecError::EdgeOutOfRange);
            }
            i = i + 1;
        }
        Ok(Spec { hole, edges, vertices, epsilon })
    }

    /// A problem from its JSON text.
    pub fn from_json(text: &str) -> (r: Result<Spec, SpecError>)
        ensures
            read_from(text@, r),
            r matches Ok(s) ==> s.hole@.len() >= 3 && edges_canonical(s.edges@) && s.edges_within(s.vertices@),
    {
        let data = match parse_json(text) {
            Ok(data) => data,
            Err(_) => return Err(SpecError::InvalidJson),
        };
        let hole = match points_from_json(json_field(&data, "hole")) {
            Some(h) => h,
            None => return Err(SpecError::InvalidHole),
        };
        let figure = json_field(&data, "figure");
        let edges_value = match figure {
            Some(f) => json_field(f, "edges"),
            None => None,
        };
        let edges = match edges_from_json(edges_value) {
            Some(e) => e,
            None => return Err(SpecError::InvalidEdges),
        };
        let vertices_value = match figure {
            Some(f) => json_field(f, "vertices"),
            None => None,
        };
        let vertices = match points_from_json(vertices_value) {
            Some(v) => v,
            None => return Err(SpecError::InvalidVertices),
        };
        let epsilon = match json_field(&data, "epsilon") {
            Some(e) => json_int(e),
            None => None,
        };
        let epsilon = match epsilon {
            Some(e) => e,
            None => return Err(SpecError::InvalidEpsilon),
        };
        Spec::from_parts(hole, edges, vertices, epsilon)
    }
}

} // verus!
