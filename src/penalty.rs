//! The problem, a candidate placement, and the penalty that scores the placement.

use vstd::prelude::*;
use crate::geometry::Point;
use crate::polygon::{inside, polygon_contains};
use crate::boundary::{edge_intersect_hole, crosses_boundary};

verus! {

/// A problem: the hole, the figure's edges (each with its smaller index first), the
/// figure's vertices, and the allowed deformation of edge lengths.
#[derive(Debug)]
pub struct Spec {
    pub hole: Vec<Point>,
    pub edges: Vec<(usize, usize)>,
    pub vertices: Vec<Point>,
    pub epsilon: i64,
}

/// A candidate placement: one point for each figure vertex.
#[derive(Debug)]
pub struct Solution {
    pub nodes: Vec<Point>,
}

/// How far a placement is from valid, counted three ways.
#[derive(Clone, Copy, Debug, PartialEq, Eq, Structural)]
pub struct Penalty {
    /// Vertices that are not in the hole.
    pub outside_penalty: usize,
    /// Edge-length deviations; always zero, kept for a later length check.
    pub length_penalty: usize,
    /// Edges that pass outside the hole.
    pub intersect_penalty: usize,
}

impl Spec {
    /// Every edge refers to two vertices of `nodes`.
    pub open spec fn edges_within(self, nodes: Seq<Point>) -> bool {
        forall|k: int| 0 <= k < self.edges@.len() ==> {
            &&& (#[trigger] self.edges@[k]).0 < nodes.len()
            &&& self.edges@[k].1 < nodes.len()
        }
    }

    /// A problem with no hole, no figure and no tolerance.
    pub fn new() -> (r: Spec)
        ensures
            r.hole@.len() == 0,
            r.edges@.len() == 0,
            r.vertices@.len() == 0,
            r.epsilon == 0,
    {
        Spec { hole: Vec::new(), edges: Vec::new(), vertices: Vec::new(), epsilon: 0 }
    }
}

/// The number of `edges` whose placement in `nodes` passes outside `hole`.
pub open spec fn crossing_edge_count(nodes: Seq<Point>, edges: Seq<(usize, usize)>, hole: Seq<Point>) -> nat
    decreases edges.len(),
{
    if edges.len() == 0 {
        0
    } else {
        let e = edges.last();
        crossing_edge_count(nodes, edges.drop_last(), hole) + if crosses_boundary(
            nodes[e.0 as int],
            nodes[e.1 as int],
            hole,
        ) {
            1nat
        } else {
            0nat
        }
    }
}

/// The number of `nodes` that are not in `hole`.
pub open spec fn outside_count(nodes: Seq<Point>, hole: Seq<Point>) -> nat
    decreases nodes.len(),
{
    if nodes.len() == 0 {
        0
    } else {
        outside_count(nodes.drop_last(), hole) + if polygon_contains(nodes.last(), hole) {
            0nat
        } else {
            1nat
        }
    }
}

/// Scores `solution` against `spec`: the edges that leave the hole and the vertices
/// outside it.
pub fn compute_penalty(solution: &Solution, spec: &Spec) -> (r: Penalty)
    requires
        spec.edges_within(solution.nodes@),
    ensures
        r.intersect_penalty == crossing_edge_count(solution.nodes@, spec.edges@, spec.hole@),
        r.outside_penalty == outside_count(solution.nodes@, spec.hole@),
        r.length_penalty == 0,
{
    let nodes = &solution.nodes;
    let mut intersect_penalty: usize = 0;
    let mut i: usize = 0;
    while i < spec.edges.len()
        invariant
            i <= spec.edges@.len(),
            spec.edges_within(nodes@),
            intersect_penalty <= i,
            intersect_penalty == crossing_edge_count(nodes@, spec.edges@.take(i as int), spec.hole@),
        decreases spec.edges@.len() - i,
    {
        let (ia, ib) = spec.edges[i];
        assert(spec.edges@[i as int].0 < nodes@.len());
        assert(spec.edges@.take(i + 1).drop_last() =~= spec.edges@.take(i as int));
        if edge_intersect_hole(nodes[ia], nodes[ib], &spec.hole) {
            intersect_penalty = intersect_penalty + 1;
        }
        i = i + 1;
    }
    assert(spec.edges@.take(i as int) =~= spec.edges@);

    let mut outside_penalty: usize = 0;
    let mut j: usize = 0;
    while j < nodes.len()
        invariant
            j <= nodes@.len(),
            outside_penalty <= j,
            outside_penalty == outside_count(nodes@.take(j as int), spec.hole@),
        decreases nodes@.len() - j,
    {
        assert(nodes@.take(j + 1).drop_last() =~= nodes@.take(j as int));
        if !inside(nodes[j], &spec.hole) {
            outside_penalty = outside_penalty + 1;
        }
        j = j + 1;
    }
    assert(nodes@.take(j as int) =~= nodes@);
    Penalty { outside_penalty, length_penalty: 0, intersect_penalty }
}

} // verus!
