//! An index-based graph: a vertex arena and edges as index pairs.

use vstd::prelude::*;

verus! {

/// Every endpoint of every edge is below `n`.
pub open spec fn edges_within(edges: Seq<(usize, usize)>, n: nat) -> bool {
    forall|i: int| 0 <= i < edges.len() ==> (#[trigger] edges[i]).0 < n && edges[i].1 < n
}

/// Tells whether every endpoint of every edge is below `n`.
pub fn edges_are_within(edges: &Vec<(usize, usize)>, n: usize) -> (ok: bool)
    ensures
        ok == edges_within(edges@, n as nat),
{
    let mut i: usize = 0;
    while i < edges.len()
        invariant
            i <= edges@.len(),
            forall|j: int| 0 <= j < i ==> (#[trigger] edges@[j]).0 < n && edges@[j].1 < n,
        decreases edges@.len() - i,
    {
        let (a, b) = edges[i];
        if a >= n || b >= n {
            assert(!((edges@[i as int]).0 < n && edges@[i as int].1 < n));
            return false;
        }
        i += 1;
    }
    true
}

/// An arena of vertices and a list of undirected edges between them, each
/// edge a pair of indices into the vertex arena.
pub struct Graph<T> {
    pub vertices: Vec<T>,
    pub edges: Vec<(usize, usize)>,
}

impl<T> Graph<T> {
    /// No edge refers to a vertex outside the arena.
    pub open spec fn well_formed(&self) -> bool {
        edges_within(self.edges@, self.vertices@.len())
    }

    /// Assembles a graph from its vertices and edges.
    pub fn new(vertices: Vec<T>, edges: Vec<(usize, usize)>) -> (g: Self)
        requires
            edges_within(edges@, vertices@.len()),
        ensures
            g.vertices@ == vertices@,
            g.edges@ == edges@,
            g.well_formed(),
    {
        Graph { vertices, edges }
    }

    /// Assembles a graph, or gives `None` when an edge refers to a vertex
    /// outside the arena.
    pub fn try_new(vertices: Vec<T>, edges: Vec<(usize, usize)>) -> (g: Option<Self>)
        ensures
            g is Some <==> edges_within(edges@, vertices@.len()),
            g is Some ==> g->Some_0.vertices@ == vertices@ && g->Some_0.edges@ == edges@,
    {
        if !edges_are_within(&edges, vertices.len()) {
            return None;
        }
        Some(Graph::new(vertices, edges))
    }
}

} // verus!
