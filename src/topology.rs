//! The executable edge walk: validation of the cells, a lookup table of the
//! directed edges met so far, and the walk itself, proved to produce what the
//! model in `model` describes.

use crate::error::TerrainError;
use crate::adjacency::touches;
use crate::graph::edges_within;
use crate::key::{lemma_pair_key_injective, pair_key, pair_key_of};
use crate::model::{successor, directed_edge, cell_valid, cells_valid, cells_view, Tally, initial_tally, has_edge, edge_position, step, walk_cell, walk_cells, tally_of, undirected_distinct, tally_wf, lemma_step_wf, lemma_wf_grow, lemma_walk_cell_stays_failed, lemma_walk_cells_stay_failed, lemma_initial_wf};
use std::collections::HashMap;
use vstd::prelude::*;

verus! {

broadcast use vstd::std_specs::hash::group_hash_axioms;

/// The deduplicated terrain edges, the region adjacency and the edges that
/// leave each vertex, as the edge walk produced them.
pub struct EdgeTopology {
    pub terrain_edges: Vec<(usize, usize)>,
    pub region_edges: Vec<(usize, usize)>,
    pub edges_by_vertex: Vec<Vec<usize>>,
}

impl EdgeTopology {
    pub open spec fn incidence_view(&self) -> Seq<Seq<usize>> {
        self.edges_by_vertex@.map_values(|v: Vec<usize>| v@)
    }

    /// No dangling index, every edge listed for a vertex has that vertex as
    /// an endpoint, no terrain edge stored twice in either direction, no
    /// region adjacent to itself.
    pub open spec fn well_formed(&self, n: nat, regions: nat) -> bool {
        let es = self.terrain_edges@;
        let rs = self.region_edges@;
        let inc = self.incidence_view();
        &&& inc.len() == n
        &&& edges_within(es, n)
        &&& forall|v: int, i: int|
            0 <= v < n && 0 <= i < inc[v].len() ==> #[trigger] inc[v][i] < es.len() && touches(
                es[inc[v][i] as int],
                v,
            )
        &&& forall|e1: int, e2: int|
            0 <= e1 < es.len() && 0 <= e2 < es.len() && e1 != e2 ==> undirected_distinct(
                #[trigger] es[e1],
                #[trigger] es[e2],
            )
        &&& forall|i: int|
            0 <= i < rs.len() ==> (#[trigger] rs[i]).0 != rs[i].1 && rs[i].0 < regions && rs[i].1
                < regions
    }

    /// This topology is what the walk over all cells produced.
    pub open spec fn matches(&self, t: Tally) -> bool {
        &&& self.terrain_edges@ == t.terrain_edges
        &&& self.region_edges@ == t.region_edges
        &&& self.incidence_view() == t.incidence
    }
}

/// The lookup key of the directed edge `(a, b)`.
pub open spec fn edge_key(a: usize, b: usize) -> u128 {
    pair_key(a as int, b as int)
}

proof fn lemma_edge_key_injective(a: usize, b: usize, c: usize, d: usize)
    requires
        edge_key(a, b) == edge_key(c, d),
    ensures
        a == c && b == d,
{
    lemma_pair_key_injective(a as int, b as int, c as int, d as int);
}

fn key_of(a: usize, b: usize) -> (k: u128)
    ensures
        k == edge_key(a, b),
{
    pair_key_of(a as u64, b as u64)
}

/// The lookup table holds exactly the key of each stored edge, mapped to the
/// edge's position.
pub open spec fn index_tracks(m: Map<u128, usize>, es: Seq<(usize, usize)>) -> bool {
    &&& forall|e: int|
        0 <= e < es.len() ==> m.contains_key(edge_key((#[trigger] es[e]).0, es[e].1)) && m[edge_key(
            es[e].0,
            es[e].1,
        )] == e
    &&& forall|k: u128|
        #[trigger] m.contains_key(k) ==> m[k] < es.len() && edge_key(es[m[k] as int].0, es[m[k] as int].1)
            == k
}

proof fn lemma_lookup(m: Map<u128, usize>, es: Seq<(usize, usize)>, a: usize, b: usize)
    requires
        index_tracks(m, es),
        forall|e1: int, e2: int|
            0 <= e1 < es.len() && 0 <= e2 < es.len() && e1 != e2 ==> #[trigger] es[e1] != #[trigger] es[e2],
    ensures
        m.contains_key(edge_key(a, b)) <==> has_edge(es, a, b),
        m.contains_key(edge_key(a, b)) ==> m[edge_key(a, b)] as int == edge_position(es, a, b),
{
    let k = edge_key(a, b);
    if m.contains_key(k) {
        let e = m[k] as int;
        lemma_edge_key_injective(es[e].0, es[e].1, a, b);
        assert(es[e] == (a, b));
        let p = edge_position(es, a, b);
        assert(es[p] == (a, b));
    }
    if has_edge(es, a, b) {
        let e = choose|e: int| 0 <= e < es.len() && es[e] == (a, b);
        assert(m.contains_key(edge_key(es[e].0, es[e].1)));
    }
}

/// Tells whether every cell is valid for `vertex_count` vertices.
pub fn cells_are_valid(cells: &Vec<Vec<usize>>, vertex_count: usize) -> (ok: bool)
    ensures
        ok == cells_valid(cells_view(cells), vertex_count as nat),
{
    let ghost cv = cells_view(cells);
    let mut r: usize = 0;
    while r < cells.len()
        invariant
            r <= cells.len(),
            cv == cells_view(cells),
            forall|q: int| 0 <= q < r ==> cell_valid(#[trigger] cv[q], vertex_count as nat),
        decreases cells.len() - r,
    {
        let cell = &cells[r];
        assert(cv[r as int] == cell@);
        let len = cell.len();
        if len < 3 {
            return false;
        }
        let mut k: usize = 0;
        while k < len
            invariant
                k <= len,
                len == cell@.len(),
                len >= 3,
                r < cells.len(),
                cv == cells_view(cells),
                cv[r as int] == cell@,
                forall|q: int| 0 <= q < r ==> cell_valid(#[trigger] cv[q], vertex_count as nat),
                forall|j: int|
                    0 <= j < k ==> #[trigger] cell@[j] < vertex_count && cell@[j] != cell@[successor(
                        len as int,
                        j,
                    )],
            decreases len - k,
        {
            let next = if k + 1 < len {
                k + 1
            } else {
                0
            };
            if cell[k] >= vertex_count || cell[k] == cell[next] {
                assert(!(cell@[k as int] < vertex_count && cell@[k as int] != cell@[successor(
                    len as int,
                    k as int,
                )]));
                assert(!cell_valid(cv[r as int], vertex_count as nat));
                return false;
            }
            k += 1;
        }
        r += 1;
    }
    true
}

/// The executable state of the edge walk, with a lookup table from the key
/// of each stored directed edge to its position.
struct Walk {
    terrain_edges: Vec<(usize, usize)>,
    owners: Vec<usize>,
    shared: Vec<bool>,
    region_edges: Vec<(usize, usize)>,
    by_vertex: Vec<Vec<usize>>,
    index: HashMap<u128, usize>,
    sources: Ghost<Seq<int>>,
}

impl Walk {
    spec fn tally(&self) -> Tally {
        Tally {
            terrain_edges: self.terrain_edges@,
            owners: self.owners@,
            shared: self.shared@,
            region_edges: self.region_edges@,
            incidence: self.by_vertex@.map_values(|v: Vec<usize>| v@),
            sources: self.sources@,
        }
    }

    fn new(vertex_count: usize) -> (w: Walk)
        ensures
            w.tally() == initial_tally(vertex_count as nat),
            w.by_vertex@.len() == vertex_count,
            index_tracks(w.index@, w.terrain_edges@),
    {
        let mut by_vertex: Vec<Vec<usize>> = Vec::new();
        let mut v: usize = 0;
        while v < vertex_count
            invariant
                v <= vertex_count,
                by_vertex@.len() == v,
                forall|u: int| 0 <= u < v ==> (#[trigger] by_vertex@[u])@ == Seq::<usize>::empty(),
            decreases vertex_count - v,
        {
            by_vertex.push(Vec::new());
            v += 1;
        }
        let w = Walk {
            terrain_edges: Vec::new(),
            owners: Vec::new(),
            shared: Vec::new(),
            region_edges: Vec::new(),
            by_vertex,
            index: HashMap::new(),
            sources: Ghost(Seq::empty()),
        };
        proof {
            let t0 = w.tally();
            let i0 = initial_tally(vertex_count as nat);
            assert(t0.incidence =~= i0.incidence);
            assert(t0.terrain_edges =~= i0.terrain_edges);
            assert(t0.owners =~= i0.owners);
            assert(t0.shared =~= i0.shared);
            assert(t0.region_edges =~= i0.region_edges);
            assert(t0.sources =~= i0.sources);
        }
        w
    }

    /// Region `r` walks the directed edge `(a, b)`; returns false exactly
    /// when the step fails.
    fn walk_edge(&mut self, r: usize, a: usize, b: usize) -> (ok: bool)
        requires
            tally_wf(old(self).tally(), old(self).by_vertex@.len(), (r + 1) as nat),
            index_tracks(old(self).index@, old(self).terrain_edges@),
            a < old(self).by_vertex@.len(),
            b < old(self).by_vertex@.len(),
            a != b,
        ensures
            ok == step(old(self).tally(), r, a, b) is Some,
            ok ==> step(old(self).tally(), r, a, b) == Some(final(self).tally()),
            ok ==> index_tracks(final(self).index@, final(self).terrain_edges@),
            ok ==> final(self).by_vertex@.len() == old(self).by_vertex@.len(),
    {
        let ghost t = self.tally();
        proof {
            reveal(tally_wf);
            lemma_lookup(self.index@, self.terrain_edges@, a, b);
            lemma_lookup(self.index@, self.terrain_edges@, b, a);
        }
        if self.index.contains_key(&key_of(a, b)) {
            return false;
        }
        let e: usize = match self.index.get(&key_of(b, a)) {
            Some(found) => {
                let e = *found;
                if self.shared[e] || self.owners[e] == r {
                    return false;
                }
                self.shared.set(e, true);
                let other = self.owners[e];
                self.region_edges.push((r, other));
                self.sources = Ghost(self.sources@.push(e as int));
                e
            },
            None => {
                let e = self.terrain_edges.len();
                self.terrain_edges.push((a, b));
                self.owners.push(r);
                self.shared.push(false);
                self.index.insert(key_of(a, b), e);
                proof {
                    let es = self.terrain_edges@;
                    assert forall|k: u128| #[trigger] self.index@.contains_key(k) implies self.index@[k]
                        < es.len() && edge_key(es[self.index@[k] as int].0, es[self.index@[k] as int].1)
                        == k by {
                        if k != edge_key(a, b) {
                            assert(old(self).index@.contains_key(k));
                        }
                    }
                    assert forall|x: int| 0 <= x < es.len() implies self.index@.contains_key(
                        edge_key((#[trigger] es[x]).0, es[x].1),
                    ) && self.index@[edge_key(es[x].0, es[x].1)] == x by {
                        if x < e {
                            assert(es[x] == old(self).terrain_edges@[x]);
                            if edge_key(es[x].0, es[x].1) == edge_key(a, b) {
                                lemma_edge_key_injective(es[x].0, es[x].1, a, b);
                            }
                        }
                    }
                }
                e
            },
        };
        self.by_vertex[a].push(e);
        proof {
            let t2 = self.tally();
            assert(t2.incidence =~= t.incidence.update(a as int, t.incidence[a as int].push(e)));
            if has_edge(t.terrain_edges, b, a) {
                assert(t2.shared =~= t.shared.update(e as int, true));
            }
        }
        true
    }
}

/// Walks every cell's edges in winding order and derives the deduplicated
/// terrain edges, the region adjacency and the edges leaving each vertex.
///
/// Fails with `InvalidInput` when a cell is not valid for `vertex_count`
/// vertices, and with `TopologyInconsistency` when the walk over the cells
/// fails (see `step`).
#[verifier::rlimit(30)]
pub fn build_edges(cells: &Vec<Vec<usize>>, vertex_count: usize) -> (res: Result<
    EdgeTopology,
    TerrainError,
>)
    ensures
        !cells_valid(cells_view(cells), vertex_count as nat) ==> res == Err::<
            EdgeTopology,
            TerrainError,
        >(TerrainError::InvalidInput),
        cells_valid(cells_view(cells), vertex_count as nat) ==> match tally_of(
            cells_view(cells),
            vertex_count as nat,
        ) {
            None => res == Err::<EdgeTopology, TerrainError>(TerrainError::TopologyInconsistency),
            Some(t) => res is Ok && res->Ok_0.matches(t),
        },
        res is Ok ==> res->Ok_0.well_formed(vertex_count as nat, cells@.len()),
{
    if !cells_are_valid(cells, vertex_count) {
        return Err(TerrainError::InvalidInput);
    }
    let ghost cv = cells_view(cells);
    let ghost n = vertex_count as nat;
    let mut w = Walk::new(vertex_count);
    proof {
        lemma_initial_wf(n);
    }
    let mut r: usize = 0;
    while r < cells.len()
        invariant
            r <= cells.len(),
            cv == cells_view(cells),
            cells_valid(cv, n),
            n == vertex_count,
            w.by_vertex@.len() == n,
            walk_cells(cv, n, r as nat) == Some(w.tally()),
            tally_wf(w.tally(), n, r as nat),
            index_tracks(w.index@, w.terrain_edges@),
        decreases cells.len() - r,
    {
        let cell = &cells[r];
        let len = cell.len();
        let ghost start = walk_cells(cv, n, r as nat);
        assert(cv[r as int] == cell@);
        assert(cell_valid(cell@, n));
        proof {
            lemma_wf_grow(w.tally(), n, r as nat);
        }
        let mut k: usize = 0;
        while k < len
            invariant
                k <= len,
                len == cell@.len(),
                r < cells.len(),
                cv == cells_view(cells),
                cells_valid(cv, n),
                cell_valid(cell@, n),
                cv[r as int] == cell@,
                n == vertex_count,
                w.by_vertex@.len() == n,
                start == walk_cells(cv, n, r as nat),
                walk_cell(start, r, cell@, k as nat) == Some(w.tally()),
                tally_wf(w.tally(), n, (r + 1) as nat),
                index_tracks(w.index@, w.terrain_edges@),
            decreases len - k,
        {
            let ghost t = w.tally();
            let next = if k + 1 < len {
                k + 1
            } else {
                0
            };
            let a = cell[k];
            let b = cell[next];
            assert(a < vertex_count && b < vertex_count && a != b);
            assert(directed_edge(cell@, k as int) == (a, b));
            if !w.walk_edge(r, a, b) {
                proof {
                    assert(walk_cell(start, r, cell@, (k + 1) as nat) is None);
                    lemma_walk_cell_stays_failed(start, r, cell@, (k + 1) as nat, len as nat);
                    lemma_walk_cells_stay_failed(cv, n, (r + 1) as nat, cv.len());
                }
                return Err(TerrainError::TopologyInconsistency);
            }
            proof {
                assert(w.terrain_edges@.len() == w.terrain_edges.len());
                lemma_step_wf(t, n, (r + 1) as nat, r, a, b);
            }
            k += 1;
        }
        r += 1;
    }
    let topo = EdgeTopology {
        terrain_edges: w.terrain_edges,
        region_edges: w.region_edges,
        edges_by_vertex: w.by_vertex,
    };
    proof {
        reveal(tally_wf);
        let es = topo.terrain_edges@;
        assert forall|i: int| 0 <= i < es.len() implies (#[trigger] es[i]).0 < n && es[i].1 < n by {
            assert(tally_of(cv, n)->Some_0.terrain_edges[i] == es[i]);
        }
    }
    Ok(topo)
}

/// The topology of cells that the tessellation engine handed back. Cells
/// that are not valid there are the engine's failure, reported as
/// `DependencyFailure`; otherwise the result is that of `build_edges`.
pub fn engine_topology(cells: &Vec<Vec<usize>>, vertex_count: usize) -> (res: Result<
    EdgeTopology,
    TerrainError,
>)
    ensures
        !cells_valid(cells_view(cells), vertex_count as nat) ==> res == Err::<
            EdgeTopology,
            TerrainError,
        >(TerrainError::DependencyFailure),
        cells_valid(cells_view(cells), vertex_count as nat) ==> match tally_of(
            cells_view(cells),
            vertex_count as nat,
        ) {
            None => res == Err::<EdgeTopology, TerrainError>(TerrainError::TopologyInconsistency),
            Some(t) => res is Ok && res->Ok_0.matches(t),
        },
        res is Ok ==> res->Ok_0.well_formed(vertex_count as nat, cells@.len()),
{
    match build_edges(cells, vertex_count) {
        Err(TerrainError::InvalidInput) => Err(TerrainError::DependencyFailure),
        other => other,
    }
}

} // verus!
