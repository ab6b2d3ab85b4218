//! The edge walk as a mathematical model: what walking every cell's directed
//! edges in order produces, and the invariants that every step keeps.

use crate::adjacency::touches;
use vstd::prelude::*;

verus! {

/// Position of the vertex that follows position `k` in a cell of `len`
/// vertices, wrapping from the last back to the first.
pub open spec fn successor(len: int, k: int) -> int {
    if k + 1 < len {
        k + 1
    } else {
        0
    }
}

/// The directed edge that a cell contributes at position `k`.
pub open spec fn directed_edge(cell: Seq<usize>, k: int) -> (usize, usize) {
    (cell[k], cell[successor(cell.len() as int, k)])
}

/// A cell has at least three vertices, all below `n`, and never repeats a
/// vertex at two consecutive positions.
pub open spec fn cell_valid(cell: Seq<usize>, n: nat) -> bool {
    &&& cell.len() >= 3
    &&& forall|k: int|
        0 <= k < cell.len() ==> #[trigger] cell[k] < n && cell[k] != cell[successor(
            cell.len() as int,
            k,
        )]
}

pub open spec fn cells_valid(cells: Seq<Seq<usize>>, n: nat) -> bool {
    forall|r: int| 0 <= r < cells.len() ==> cell_valid(#[trigger] cells[r], n)
}

pub open spec fn cells_view(cells: &Vec<Vec<usize>>) -> Seq<Seq<usize>> {
    cells@.map_values(|c: Vec<usize>| c@)
}

/// The bookkeeping of the edge walk after some prefix of the directed edges.
pub struct Tally {
    /// Undirected terrain edges, each in the direction first met.
    pub terrain_edges: Seq<(usize, usize)>,
    /// For each terrain edge, the region that first met it.
    pub owners: Seq<usize>,
    /// For each terrain edge, whether a second region has met it reversed.
    pub shared: Seq<bool>,
    /// Adjacency edges between regions, `(later region, earlier region)`.
    pub region_edges: Seq<(usize, usize)>,
    /// For each vertex, the terrain edges met while leaving it, in order.
    pub incidence: Seq<Seq<usize>>,
    /// For each region-adjacency edge, the shared terrain edge behind it.
    pub sources: Seq<int>,
}

pub open spec fn initial_tally(n: nat) -> Tally {
    Tally {
        terrain_edges: Seq::empty(),
        owners: Seq::empty(),
        shared: Seq::empty(),
        region_edges: Seq::empty(),
        incidence: Seq::new(n, |v: int| Seq::<usize>::empty()),
        sources: Seq::empty(),
    }
}

pub open spec fn has_edge(edges: Seq<(usize, usize)>, a: usize, b: usize) -> bool {
    exists|e: int| 0 <= e < edges.len() && edges[e] == (a, b)
}

pub open spec fn edge_position(edges: Seq<(usize, usize)>, a: usize, b: usize) -> int {
    choose|e: int| 0 <= e < edges.len() && edges[e] == (a, b)
}

/// Region `r` walks the directed edge `(a, b)`. The walk fails when the
/// edge was already walked in this direction, or its reverse was already
/// shared, or its reverse belongs to `r` itself.
pub open spec fn step(t: Tally, r: usize, a: usize, b: usize) -> Option<Tally> {
    if has_edge(t.terrain_edges, a, b) {
        None
    } else if has_edge(t.terrain_edges, b, a) {
        let e = edge_position(t.terrain_edges, b, a);
        if t.shared[e] || t.owners[e] == r {
            None
        } else {
            Some(
                Tally {
                    shared: t.shared.update(e, true),
                    region_edges: t.region_edges.push((r, t.owners[e])),
                    incidence: t.incidence.update(a as int, t.incidence[a as int].push(e as usize)),
                    sources: t.sources.push(e),
                    ..t
                },
            )
        }
    } else {
        let e = t.terrain_edges.len();
        Some(
            Tally {
                terrain_edges: t.terrain_edges.push((a, b)),
                owners: t.owners.push(r),
                shared: t.shared.push(false),
                incidence: t.incidence.update(a as int, t.incidence[a as int].push(e as usize)),
                ..t
            },
        )
    }
}

/// The walk over the first `k` directed edges of `cell`, region `r`.
pub open spec fn walk_cell(t: Option<Tally>, r: usize, cell: Seq<usize>, k: nat) -> Option<Tally>
    decreases k,
{
    if k == 0 {
        t
    } else {
        match walk_cell(t, r, cell, (k - 1) as nat) {
            None => None,
            Some(t2) => {
                let d = directed_edge(cell, k - 1);
                step(t2, r, d.0, d.1)
            },
        }
    }
}

/// The walk over the first `m` cells.
pub open spec fn walk_cells(cells: Seq<Seq<usize>>, n: nat, m: nat) -> Option<Tally>
    decreases m,
{
    if m == 0 {
        Some(initial_tally(n))
    } else {
        let r = (m - 1) as int;
        walk_cell(walk_cells(cells, n, (m - 1) as nat), r as usize, cells[r], cells[r].len())
    }
}

/// The outcome of the walk over every cell.
pub open spec fn tally_of(cells: Seq<Seq<usize>>, n: nat) -> Option<Tally> {
    walk_cells(cells, n, cells.len())
}

/// Two stored edges never join the same pair of vertices, in either direction.
pub open spec fn undirected_distinct(x: (usize, usize), y: (usize, usize)) -> bool {
    x != y && x != (y.1, y.0)
}

/// Every index that the tally stores is in range, no terrain edge is stored
/// twice, every adjacency edge names the later region first, and each
/// adjacency edge has its own shared terrain edge behind it. `regions` bounds
/// the region indices met so far.
#[verifier::opaque]
pub open spec fn tally_wf(t: Tally, n: nat, regions: nat) -> bool {
    &&& t.owners.len() == t.terrain_edges.len()
    &&& t.shared.len() == t.terrain_edges.len()
    &&& t.incidence.len() == n
    &&& forall|e: int|
        0 <= e < t.terrain_edges.len() ==> {
            &&& (#[trigger] t.terrain_edges[e]).0 < n
            &&& t.terrain_edges[e].1 < n
            &&& t.terrain_edges[e].0 != t.terrain_edges[e].1
            &&& t.owners[e] < regions
        }
    &&& forall|e1: int, e2: int|
        0 <= e1 < t.terrain_edges.len() && 0 <= e2 < t.terrain_edges.len() && e1 != e2
            ==> undirected_distinct(#[trigger] t.terrain_edges[e1], #[trigger] t.terrain_edges[e2])
    &&& t.terrain_edges.len() <= usize::MAX
    &&& forall|v: int, i: int|
        0 <= v < n && 0 <= i < t.incidence[v].len() ==> #[trigger] t.incidence[v][i]
            < t.terrain_edges.len() && touches(t.terrain_edges[t.incidence[v][i] as int], v)
    &&& t.sources.len() == t.region_edges.len()
    &&& forall|i: int|
        0 <= i < t.region_edges.len() ==> {
            &&& (#[trigger] t.region_edges[i]).1 < t.region_edges[i].0
            &&& t.region_edges[i].0 < regions
            &&& 0 <= t.sources[i] < t.terrain_edges.len()
            &&& t.shared[t.sources[i]]
            &&& t.owners[t.sources[i]] == t.region_edges[i].1
        }
    &&& forall|i1: int, i2: int|
        0 <= i1 < t.sources.len() && 0 <= i2 < t.sources.len() && i1 != i2 ==> #[trigger] t.sources[i1]
            != #[trigger] t.sources[i2]
    &&& forall|e: int|
        0 <= e < t.terrain_edges.len() && #[trigger] t.shared[e] ==> exists|i: int|
            0 <= i < t.sources.len() && #[trigger] t.sources[i] == e
}

pub(crate) proof fn lemma_step_wf(t: Tally, n: nat, regions: nat, r: usize, a: usize, b: usize)
    requires
        tally_wf(t, n, regions),
        step(t, r, a, b) is Some ==> step(t, r, a, b)->Some_0.terrain_edges.len() <= usize::MAX,
        regions == r + 1,
        a < n,
        b < n,
        a != b,
        step(t, r, a, b) is Some,
    ensures
        tally_wf(step(t, r, a, b)->Some_0, n, regions),
{
    reveal(tally_wf);
    let t2 = step(t, r, a, b)->Some_0;
    if has_edge(t.terrain_edges, b, a) {
        let e = edge_position(t.terrain_edges, b, a);
        assert(t2.terrain_edges == t.terrain_edges);
        assert(0 <= e < t.terrain_edges.len() && t.terrain_edges[e] == (b, a));
        assert(t.owners[e] < regions);
        assert(!t.shared[e]);
        assert forall|i: int| 0 <= i < t2.region_edges.len() implies {
            &&& (#[trigger] t2.region_edges[i]).1 < t2.region_edges[i].0
            &&& t2.region_edges[i].0 < regions
            &&& 0 <= t2.sources[i] < t2.terrain_edges.len()
            &&& t2.shared[t2.sources[i]]
            &&& t2.owners[t2.sources[i]] == t2.region_edges[i].1
        } by {
            if i < t.region_edges.len() {
                assert(t2.region_edges[i] == t.region_edges[i]);
                assert(t2.sources[i] == t.sources[i]);
                assert(t.region_edges[i].1 < t.region_edges[i].0);
            }
        }
        assert forall|i1: int, i2: int|
            0 <= i1 < t2.sources.len() && 0 <= i2 < t2.sources.len() && i1 != i2 implies #[trigger] t2.sources[i1]
            != #[trigger] t2.sources[i2] by {
            if i1 < t.sources.len() && i2 < t.sources.len() {
                assert(t2.sources[i1] == t.sources[i1]);
                assert(t2.sources[i2] == t.sources[i2]);
            } else if i1 < t.sources.len() {
                assert(t2.sources[i1] == t.sources[i1]);
                assert(t.region_edges[i1].1 < t.region_edges[i1].0);
                assert(t.shared[t.sources[i1]]);
            } else {
                assert(t2.sources[i2] == t.sources[i2]);
                assert(t.region_edges[i2].1 < t.region_edges[i2].0);
                assert(t.shared[t.sources[i2]]);
            }
        }
        assert forall|v: int, i: int|
            0 <= v < n && 0 <= i < t2.incidence[v].len() implies #[trigger] t2.incidence[v][i]
            < t2.terrain_edges.len() && touches(t2.terrain_edges[t2.incidence[v][i] as int], v) by {
            if v != a as int {
                assert(t2.incidence[v] == t.incidence[v]);
                assert(t2.terrain_edges[t.incidence[v][i] as int] == t.terrain_edges[t.incidence[v][i] as int]);
            } else if i < t.incidence[v].len() {
                assert(t2.incidence[v][i] == t.incidence[v][i]);
                assert(t2.terrain_edges[t.incidence[v][i] as int] == t.terrain_edges[t.incidence[v][i] as int]);
            }
        }
        assert forall|x: int|
            0 <= x < t2.terrain_edges.len() && #[trigger] t2.shared[x] implies exists|i: int|
                0 <= i < t2.sources.len() && #[trigger] t2.sources[i] == x by {
            if x == e {
                assert(t2.sources[t.sources.len() as int] == e);
            } else {
                assert(t.shared[x]);
                let i = choose|i: int| 0 <= i < t.sources.len() && #[trigger] t.sources[i] == x;
                assert(t2.sources[i] == x);
            }
        }
    } else {
        let len = t.terrain_edges.len();
        assert forall|e1: int, e2: int|
            0 <= e1 < t2.terrain_edges.len() && 0 <= e2 < t2.terrain_edges.len() && e1 != e2
                implies undirected_distinct(
            #[trigger] t2.terrain_edges[e1],
            #[trigger] t2.terrain_edges[e2],
        ) by {
            if e1 == len {
                assert(t.terrain_edges[e2] != (a, b));
                assert(t.terrain_edges[e2] != (b, a));
            } else if e2 == len {
                assert(t.terrain_edges[e1] != (a, b));
                assert(t.terrain_edges[e1] != (b, a));
            } else {
                assert(t2.terrain_edges[e1] == t.terrain_edges[e1]);
                assert(t2.terrain_edges[e2] == t.terrain_edges[e2]);
            }
        }
        assert forall|v: int, i: int|
            0 <= v < n && 0 <= i < t2.incidence[v].len() implies #[trigger] t2.incidence[v][i]
            < t2.terrain_edges.len() && touches(t2.terrain_edges[t2.incidence[v][i] as int], v) by {
            if v != a as int {
                assert(t2.incidence[v] == t.incidence[v]);
                assert(t2.terrain_edges[t.incidence[v][i] as int] == t.terrain_edges[t.incidence[v][i] as int]);
            } else if i < t.incidence[v].len() {
                assert(t2.incidence[v][i] == t.incidence[v][i]);
                assert(t2.terrain_edges[t.incidence[v][i] as int] == t.terrain_edges[t.incidence[v][i] as int]);
            }
        }
        assert forall|x: int|
            0 <= x < t2.terrain_edges.len() && #[trigger] t2.shared[x] implies exists|i: int|
                0 <= i < t2.sources.len() && #[trigger] t2.sources[i] == x by {
            assert(t2.shared[len as int] == false);
            assert(x < len);
            assert(t2.shared[x] == t.shared[x]);
            assert(t2.sources == t.sources);
            let i = choose|i: int| 0 <= i < t.sources.len() && #[trigger] t.sources[i] == x;
            assert(t2.sources[i] == x);
        }
        assert forall|e: int| 0 <= e < t2.terrain_edges.len() implies {
            &&& (#[trigger] t2.terrain_edges[e]).0 < n
            &&& t2.terrain_edges[e].1 < n
            &&& t2.terrain_edges[e].0 != t2.terrain_edges[e].1
            &&& t2.owners[e] < regions
        } by {
            if e < len {
                assert(t2.terrain_edges[e] == t.terrain_edges[e]);
                assert(t2.owners[e] == t.owners[e]);
            }
        }
    }
}

pub(crate) proof fn lemma_walk_cell_wf(t: Tally, n: nat, regions: nat, r: usize, cell: Seq<usize>, k: nat)
    requires
        tally_wf(t, n, regions),
        regions == r + 1,
        cell_valid(cell, n),
        k <= cell.len(),
        edge_count(t) + k <= usize::MAX,
        walk_cell(Some(t), r, cell, k) is Some,
    ensures
        tally_wf(walk_cell(Some(t), r, cell, k)->Some_0, n, regions),
    decreases k,
{
    if k > 0 {
        lemma_walk_cell_from_none(r, cell, (k - 1) as nat);
        if walk_cell(Some(t), r, cell, (k - 1) as nat) is None {
            assert(walk_cell(Some(t), r, cell, k) is None);
        }
        lemma_walk_cell_wf(t, n, regions, r, cell, (k - 1) as nat);
        let t2 = walk_cell(Some(t), r, cell, (k - 1) as nat)->Some_0;
        let d = directed_edge(cell, k - 1);
        assert(cell[k - 1] < n);
        assert(cell[successor(cell.len() as int, k - 1)] < n);
        lemma_walk_cell_count(t, r, cell, k);
        lemma_step_wf(t2, n, regions, r, d.0, d.1);
    }
}

pub(crate) proof fn lemma_wf_grow(t: Tally, n: nat, regions: nat)
    requires
        tally_wf(t, n, regions),
    ensures
        tally_wf(t, n, regions + 1),
{
    reveal(tally_wf);
}

pub(crate) proof fn lemma_walk_cell_from_none(r: usize, cell: Seq<usize>, k: nat)
    ensures
        walk_cell(None, r, cell, k) is None,
    decreases k,
{
    if k > 0 {
        lemma_walk_cell_from_none(r, cell, (k - 1) as nat);
    }
}

pub(crate) proof fn lemma_walk_cell_stays_failed(t: Option<Tally>, r: usize, cell: Seq<usize>, k: nat, k2: nat)
    requires
        k <= k2,
        walk_cell(t, r, cell, k) is None,
    ensures
        walk_cell(t, r, cell, k2) is None,
    decreases k2,
{
    if k2 > k {
        lemma_walk_cell_stays_failed(t, r, cell, k, (k2 - 1) as nat);
    }
}

pub(crate) proof fn lemma_walk_cells_stay_failed(cells: Seq<Seq<usize>>, n: nat, m: nat, m2: nat)
    requires
        m <= m2 <= cells.len(),
        walk_cells(cells, n, m) is None,
    ensures
        walk_cells(cells, n, m2) is None,
    decreases m2,
{
    if m2 > m {
        lemma_walk_cells_stay_failed(cells, n, m, (m2 - 1) as nat);
        let r = m2 - 1;
        lemma_walk_cell_from_none(r as usize, cells[r], cells[r].len());
    }
}

pub(crate) proof fn lemma_initial_wf(n: nat)
    ensures
        tally_wf(initial_tally(n), n, 0),
{
    reveal(tally_wf);
    let t = initial_tally(n);
    assert forall|v: int, i: int|
        0 <= v < n && 0 <= i < t.incidence[v].len() implies #[trigger] t.incidence[v][i]
        < t.terrain_edges.len() && touches(t.terrain_edges[t.incidence[v][i] as int], v) by {
        assert(t.incidence[v] == Seq::<usize>::empty());
    }
}

pub(crate) proof fn lemma_walk_cells_wf(cells: Seq<Seq<usize>>, n: nat, m: nat)
    requires
        cells_valid(cells, n),
        cells.len() <= usize::MAX,
        m <= cells.len(),
        total_sides(cells, m) <= usize::MAX,
        walk_cells(cells, n, m) is Some,
    ensures
        tally_wf(walk_cells(cells, n, m)->Some_0, n, m),
    decreases m,
{
    if m == 0 {
        lemma_initial_wf(n);
    } else {
        let r = (m - 1) as int;
        let prev = walk_cells(cells, n, (m - 1) as nat);
        if prev is None {
            lemma_walk_cell_from_none(r as usize, cells[r], cells[r].len());
        }
        lemma_walk_cells_wf(cells, n, (m - 1) as nat);
        let t = prev->Some_0;
        lemma_wf_grow(t, n, (m - 1) as nat);
        lemma_walk_cells_count(cells, n, (m - 1) as nat);
        assert(cell_valid(cells[r], n));
        lemma_walk_cell_wf(t, n, m, r as usize, cells[r], cells[r].len());
    }
}

/// The cell contributes the directed edge `d` at some position.
pub open spec fn cell_has_edge(cell: Seq<usize>, d: (usize, usize)) -> bool {
    exists|k: int| 0 <= k < cell.len() && directed_edge(cell, k) == d
}

/// Each stored terrain edge is a directed edge of the cell that owns it, and
/// each region-adjacency edge `(p, q)` comes from a directed edge of cell `p`
/// whose reverse is the terrain edge behind it.
pub open spec fn tally_traced(t: Tally, cells: Seq<Seq<usize>>) -> bool {
    &&& t.owners.len() == t.terrain_edges.len()
    &&& forall|e: int|
        0 <= e < t.terrain_edges.len() ==> cell_has_edge(
            cells[t.owners[e] as int],
            #[trigger] t.terrain_edges[e],
        )
    &&& t.sources.len() == t.region_edges.len()
    &&& forall|i: int| 0 <= i < t.region_edges.len() ==> #[trigger] region_edge_traced(t, cells, i)
}

/// The region-adjacency edge at position `i` comes from a directed edge of
/// its first region whose reverse is the terrain edge behind it.
pub open spec fn region_edge_traced(t: Tally, cells: Seq<Seq<usize>>, i: int) -> bool {
    let e = t.sources[i];
    &&& 0 <= e < t.terrain_edges.len()
    &&& cell_has_edge(
        cells[t.region_edges[i].0 as int],
        (t.terrain_edges[e].1, t.terrain_edges[e].0),
    )
}

pub(crate) proof fn lemma_step_traced(t: Tally, cells: Seq<Seq<usize>>, r: usize, k: int)
    requires
        tally_traced(t, cells),
        0 <= k < cells[r as int].len(),
        ({
            let d = directed_edge(cells[r as int], k);
            step(t, r, d.0, d.1) is Some
        }),
    ensures
        ({
            let d = directed_edge(cells[r as int], k);
            tally_traced(step(t, r, d.0, d.1)->Some_0, cells)
        }),
{
    let d = directed_edge(cells[r as int], k);
    let (a, b) = d;
    let t2 = step(t, r, a, b)->Some_0;
    assert(cell_has_edge(cells[r as int], d));
    if has_edge(t.terrain_edges, b, a) {
        let e = edge_position(t.terrain_edges, b, a);
        assert(t.terrain_edges[e] == (b, a));
        assert forall|i: int| 0 <= i < t2.region_edges.len() implies #[trigger] region_edge_traced(
            t2,
            cells,
            i,
        ) by {
            if i < t.region_edges.len() {
                assert(region_edge_traced(t, cells, i));
                assert(t2.region_edges[i] == t.region_edges[i]);
                assert(t2.sources[i] == t.sources[i]);
            } else {
                assert(t2.sources[i] == e);
                assert(t2.region_edges[i].0 == r);
                assert(t2.terrain_edges[e] == (b, a));
                assert((t2.terrain_edges[t2.sources[i]].1, t2.terrain_edges[t2.sources[i]].0) == d);
            }
        }
    } else {
        let len = t.terrain_edges.len() as int;
        assert forall|e: int| 0 <= e < t2.terrain_edges.len() implies cell_has_edge(
            cells[t2.owners[e] as int],
            #[trigger] t2.terrain_edges[e],
        ) by {
            if e < len {
                assert(t2.terrain_edges[e] == t.terrain_edges[e]);
                assert(t2.owners[e] == t.owners[e]);
            }
        }
        assert forall|i: int| 0 <= i < t2.region_edges.len() implies #[trigger] region_edge_traced(
            t2,
            cells,
            i,
        ) by {
            assert(region_edge_traced(t, cells, i));
            assert(t2.region_edges[i] == t.region_edges[i]);
            assert(t2.sources[i] == t.sources[i]);
            assert(t2.terrain_edges[t2.sources[i]] == t.terrain_edges[t.sources[i]]);
        }
    }
}

pub(crate) proof fn lemma_walk_cell_traced(t: Tally, cells: Seq<Seq<usize>>, r: usize, k: nat)
    requires
        tally_traced(t, cells),
        k <= cells[r as int].len(),
        walk_cell(Some(t), r, cells[r as int], k) is Some,
    ensures
        tally_traced(walk_cell(Some(t), r, cells[r as int], k)->Some_0, cells),
    decreases k,
{
    if k > 0 {
        let prev = walk_cell(Some(t), r, cells[r as int], (k - 1) as nat);
        if prev is None {
            assert(walk_cell(Some(t), r, cells[r as int], k) is None);
        }
        lemma_walk_cell_traced(t, cells, r, (k - 1) as nat);
        lemma_step_traced(prev->Some_0, cells, r, k - 1);
    }
}

pub(crate) proof fn lemma_walk_cells_traced(cells: Seq<Seq<usize>>, n: nat, m: nat)
    requires
        m <= cells.len() <= usize::MAX,
        walk_cells(cells, n, m) is Some,
    ensures
        tally_traced(walk_cells(cells, n, m)->Some_0, cells),
    decreases m,
{
    if m > 0 {
        let r = (m - 1) as int;
        let prev = walk_cells(cells, n, (m - 1) as nat);
        if prev is None {
            lemma_walk_cell_from_none(r as usize, cells[r], cells[r].len());
        }
        lemma_walk_cells_traced(cells, n, (m - 1) as nat);
        lemma_walk_cell_traced(prev->Some_0, cells, r as usize, cells[r].len());
    }
}

/// Cell `r2`, at position `k2`, walks in reverse the directed edge that cell
/// `r1` walks at position `k1`.
pub open spec fn cells_share_edge_at(cells: Seq<Seq<usize>>, r1: int, k1: int, r2: int, k2: int) -> bool {
    let d = directed_edge(cells[r2], k2);
    directed_edge(cells[r1], k1) == (d.1, d.0)
}

/// No two cells have more than one boundary edge in common.
pub open spec fn cells_share_at_most_one_edge(cells: Seq<Seq<usize>>) -> bool {
    forall|r1: int, r2: int, k1: int, k2: int, j1: int, j2: int|
        0 <= r1 < r2 < cells.len() && 0 <= k1 < cells[r1].len() && 0 <= j1 < cells[r1].len() && 0
            <= k2 < cells[r2].len() && 0 <= j2 < cells[r2].len() && #[trigger] cells_share_edge_at(
            cells,
            r1,
            k1,
            r2,
            k2,
        ) && #[trigger] cells_share_edge_at(cells, r1, j1, r2, j2) ==> k1 == j1
}

/// The number of sides of the first `m` cells.
pub open spec fn total_sides(cells: Seq<Seq<usize>>, m: nat) -> nat
    decreases m,
{
    if m == 0 {
        0
    } else {
        total_sides(cells, (m - 1) as nat) + cells[m - 1].len()
    }
}

/// The number of edges, terrain and adjacency, that the tally holds.
pub open spec fn edge_count(t: Tally) -> nat {
    t.terrain_edges.len() + t.region_edges.len()
}

pub(crate) proof fn lemma_walk_cell_count(t: Tally, r: usize, cell: Seq<usize>, k: nat)
    requires
        walk_cell(Some(t), r, cell, k) is Some,
    ensures
        edge_count(walk_cell(Some(t), r, cell, k)->Some_0) == edge_count(t) + k,
    decreases k,
{
    if k > 0 {
        let prev = walk_cell(Some(t), r, cell, (k - 1) as nat);
        if prev is None {
            assert(walk_cell(Some(t), r, cell, k) is None);
        }
        lemma_walk_cell_count(t, r, cell, (k - 1) as nat);
    }
}

pub(crate) proof fn lemma_walk_cells_count(cells: Seq<Seq<usize>>, n: nat, m: nat)
    requires
        m <= cells.len(),
        walk_cells(cells, n, m) is Some,
    ensures
        edge_count(walk_cells(cells, n, m)->Some_0) == total_sides(cells, m),
    decreases m,
{
    if m > 0 {
        let r = (m - 1) as int;
        let prev = walk_cells(cells, n, (m - 1) as nat);
        if prev is None {
            lemma_walk_cell_from_none(r as usize, cells[r], cells[r].len());
        }
        lemma_walk_cells_count(cells, n, (m - 1) as nat);
        lemma_walk_cell_count(prev->Some_0, r as usize, cells[r], cells[r].len());
    }
}

} // verus!
