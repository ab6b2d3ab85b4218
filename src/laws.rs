//! What holds of every successful edge walk.

use crate::adjacency::touches;
use crate::topology::EdgeTopology;
use crate::model::{total_sides, lemma_walk_cells_count, directed_edge, cells_valid, tally_of, undirected_distinct, tally_wf, lemma_walk_cells_wf, cell_has_edge, region_edge_traced, lemma_walk_cells_traced, cells_share_edge_at, cells_share_at_most_one_edge};
use vstd::prelude::*;

verus! {

/// Whenever the walk succeeds, no index dangles: every edge index listed for
/// a vertex is a valid terrain-edge index of an edge that has the vertex as
/// an endpoint, and both endpoints of every terrain edge are valid vertex
/// indices. The sides of all cells are taken to number no more than the
/// machine's index range.
pub proof fn lemma_no_dangling_indices(cells: Seq<Seq<usize>>, n: nat)
    requires
        cells_valid(cells, n),
        cells.len() <= usize::MAX,
        total_sides(cells, cells.len()) <= usize::MAX,
        tally_of(cells, n) is Some,
    ensures
        ({
            let t = tally_of(cells, n)->Some_0;
            &&& t.incidence.len() == n
            &&& forall|v: int, i: int|
                0 <= v < n && 0 <= i < t.incidence[v].len() ==> #[trigger] t.incidence[v][i]
                    < t.terrain_edges.len() && touches(t.terrain_edges[t.incidence[v][i] as int], v)
            &&& forall|e: int|
                0 <= e < t.terrain_edges.len() ==> (#[trigger] t.terrain_edges[e]).0 < n
                    && t.terrain_edges[e].1 < n
        }),
{
    lemma_walk_cells_wf(cells, n, cells.len());
    reveal(tally_wf);
}

/// Whenever the walk succeeds, no undirected terrain edge is stored twice.
pub proof fn lemma_terrain_edges_unique(cells: Seq<Seq<usize>>, n: nat)
    requires
        cells_valid(cells, n),
        cells.len() <= usize::MAX,
        total_sides(cells, cells.len()) <= usize::MAX,
        tally_of(cells, n) is Some,
    ensures
        ({
            let es = tally_of(cells, n)->Some_0.terrain_edges;
            forall|e1: int, e2: int|
                0 <= e1 < es.len() && 0 <= e2 < es.len() && e1 != e2 ==> #[trigger] es[e1]
                    != #[trigger] es[e2] && es[e1] != (es[e2].1, es[e2].0)
        }),
{
    lemma_walk_cells_wf(cells, n, cells.len());
    reveal(tally_wf);
}

/// Whenever the walk succeeds, every region-adjacency edge joins two valid
/// region indices, the later region first: so no region is adjacent to
/// itself and no adjacency is stored in both directions.
pub proof fn lemma_region_edges_proper(cells: Seq<Seq<usize>>, n: nat)
    requires
        cells_valid(cells, n),
        cells.len() <= usize::MAX,
        total_sides(cells, cells.len()) <= usize::MAX,
        tally_of(cells, n) is Some,
    ensures
        ({
            let rs = tally_of(cells, n)->Some_0.region_edges;
            forall|i: int|
                0 <= i < rs.len() ==> (#[trigger] rs[i]).1 < rs[i].0 && rs[i].0 < cells.len()
        }),
{
    lemma_walk_cells_wf(cells, n, cells.len());
    reveal(tally_wf);
}

/// Whenever the walk succeeds over cells that pairwise share at most one
/// boundary edge, each adjacency between two regions is recorded exactly
/// once: no two region-adjacency edges join the same two regions, in either
/// direction.
pub proof fn lemma_region_adjacency_recorded_once(cells: Seq<Seq<usize>>, n: nat)
    requires
        cells_valid(cells, n),
        cells.len() <= usize::MAX,
        total_sides(cells, cells.len()) <= usize::MAX,
        tally_of(cells, n) is Some,
        cells_share_at_most_one_edge(cells),
    ensures
        ({
            let rs = tally_of(cells, n)->Some_0.region_edges;
            forall|i1: int, i2: int|
                0 <= i1 < rs.len() && 0 <= i2 < rs.len() && i1 != i2 ==> undirected_distinct(
                    #[trigger] rs[i1],
                    #[trigger] rs[i2],
                )
        }),
{
    lemma_walk_cells_wf(cells, n, cells.len());
    lemma_walk_cells_traced(cells, n, cells.len());
    reveal(tally_wf);
    let t = tally_of(cells, n)->Some_0;
    let rs = t.region_edges;
    let es = t.terrain_edges;
    assert forall|i1: int, i2: int|
        0 <= i1 < rs.len() && 0 <= i2 < rs.len() && i1 != i2 implies undirected_distinct(
        #[trigger] rs[i1],
        #[trigger] rs[i2],
    ) by {
        assert(rs[i1].1 < rs[i1].0 && rs[i2].1 < rs[i2].0);
        if rs[i1] == rs[i2] {
            let p = rs[i1].0 as int;
            let q = rs[i1].1 as int;
            let e1 = t.sources[i1];
            let e2 = t.sources[i2];
            assert(region_edge_traced(t, cells, i1));
            assert(region_edge_traced(t, cells, i2));
            assert(e1 != e2);
            assert(t.owners[e1] == q && t.owners[e2] == q);
            assert(cell_has_edge(cells[q], es[e1]));
            assert(cell_has_edge(cells[q], es[e2]));
            let k1 = choose|k: int| 0 <= k < cells[q].len() && directed_edge(cells[q], k) == es[e1];
            let k2 = choose|k: int| 0 <= k < cells[q].len() && directed_edge(cells[q], k) == es[e2];
            let j1 = choose|k: int|
                0 <= k < cells[p].len() && directed_edge(cells[p], k) == (es[e1].1, es[e1].0);
            let j2 = choose|k: int|
                0 <= k < cells[p].len() && directed_edge(cells[p], k) == (es[e2].1, es[e2].0);
            assert(cells_share_edge_at(cells, q, k1, p, j1));
            assert(cells_share_edge_at(cells, q, k2, p, j2));
            assert(k1 == k2);
            assert(es[e1] == es[e2]);
            assert(undirected_distinct(es[e1], es[e2]));
        }
    }
}

/// Whenever the walk succeeds, shared terrain edges and region-adjacency
/// edges correspond one to one: each adjacency edge `(p, q)` stands for its
/// own terrain edge, first met by region `q` and met again by a second
/// region, and each such shared terrain edge stands behind exactly one
/// adjacency edge. A terrain edge that no second region met, on the exterior
/// boundary, stands behind none.
pub proof fn lemma_shared_edges_match_adjacency(cells: Seq<Seq<usize>>, n: nat)
    requires
        cells_valid(cells, n),
        cells.len() <= usize::MAX,
        total_sides(cells, cells.len()) <= usize::MAX,
        tally_of(cells, n) is Some,
    ensures
        ({
            let t = tally_of(cells, n)->Some_0;
            &&& t.sources.len() == t.region_edges.len()
            &&& t.shared.len() == t.terrain_edges.len()
            &&& forall|i: int|
                0 <= i < t.region_edges.len() ==> {
                    &&& 0 <= #[trigger] t.sources[i] < t.terrain_edges.len()
                    &&& t.shared[t.sources[i]]
                    &&& t.owners[t.sources[i]] == t.region_edges[i].1
                }
            &&& forall|i1: int, i2: int|
                0 <= i1 < t.sources.len() && 0 <= i2 < t.sources.len() && i1 != i2
                    ==> #[trigger] t.sources[i1] != #[trigger] t.sources[i2]
            &&& forall|e: int|
                0 <= e < t.terrain_edges.len() && #[trigger] t.shared[e] ==> exists|i: int|
                    0 <= i < t.sources.len() && #[trigger] t.sources[i] == e
        }),
{
    lemma_walk_cells_wf(cells, n, cells.len());
    reveal(tally_wf);
    let t = tally_of(cells, n)->Some_0;
    assert forall|i: int| 0 <= i < t.region_edges.len() implies {
        &&& 0 <= #[trigger] t.sources[i] < t.terrain_edges.len()
        &&& t.shared[t.sources[i]]
        &&& t.owners[t.sources[i]] == t.region_edges[i].1
    } by {
        assert(t.region_edges[i].1 < t.region_edges[i].0);
    }
}

/// Whenever the walk succeeds, each side of each cell is counted once: it
/// either creates a terrain edge or, met reversed, an adjacency edge. So the
/// terrain edges and the adjacency edges together number the sides of all
/// cells.
pub proof fn lemma_sides_counted_once(cells: Seq<Seq<usize>>, n: nat)
    requires
        tally_of(cells, n) is Some,
    ensures
        tally_of(cells, n)->Some_0.terrain_edges.len() + tally_of(cells, n)->Some_0.region_edges.len()
            == total_sides(cells, cells.len()),
{
    lemma_walk_cells_count(cells, n, cells.len());
}

/// The topology is a function of the cells and the vertex count alone: two
/// results of the walk over the same cells are equal.
pub proof fn lemma_topology_deterministic(
    cells: Seq<Seq<usize>>,
    n: nat,
    x: EdgeTopology,
    y: EdgeTopology,
)
    requires
        tally_of(cells, n) is Some,
        x.matches(tally_of(cells, n)->Some_0),
        y.matches(tally_of(cells, n)->Some_0),
    ensures
        x.terrain_edges@ == y.terrain_edges@,
        x.region_edges@ == y.region_edges@,
        x.incidence_view() == y.incidence_view(),
{
}

} // verus!
