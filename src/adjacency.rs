//! For each region, the adjacency edges that touch it.

use crate::graph::edges_within;
use vstd::prelude::*;

verus! {

/// The edge `e` has region `r` as an endpoint.
pub open spec fn touches(e: (usize, usize), r: int) -> bool {
    e.0 == r || e.1 == r
}

/// The positions, in increasing order, of those among the first `m` edges
/// that have `r` as an endpoint.
pub open spec fn incident_edges(es: Seq<(usize, usize)>, r: int, m: nat) -> Seq<usize>
    decreases m,
{
    if m == 0 {
        Seq::empty()
    } else {
        let prev = incident_edges(es, r, (m - 1) as nat);
        if touches(es[m - 1], r) {
            prev.push((m - 1) as usize)
        } else {
            prev
        }
    }
}

/// Every position listed is one of the first `m` edges, and that edge has
/// `r` as an endpoint.
pub proof fn lemma_incident_edges_touch(es: Seq<(usize, usize)>, r: int, m: nat)
    requires
        m <= es.len() <= usize::MAX,
    ensures
        forall|k: int|
            0 <= k < incident_edges(es, r, m).len() ==> #[trigger] incident_edges(es, r, m)[k] < m
                && touches(es[incident_edges(es, r, m)[k] as int], r),
    decreases m,
{
    if m > 0 {
        lemma_incident_edges_touch(es, r, (m - 1) as nat);
        let prev = incident_edges(es, r, (m - 1) as nat);
        if touches(es[m - 1], r) {
            assert forall|k: int| 0 <= k < incident_edges(es, r, m).len() implies #[trigger] incident_edges(
                es,
                r,
                m,
            )[k] < m && touches(es[incident_edges(es, r, m)[k] as int], r) by {
                if k < prev.len() {
                    assert(incident_edges(es, r, m)[k] == prev[k]);
                } else {
                    assert(incident_edges(es, r, m)[k] == (m - 1) as usize);
                }
            }
        }
    }
}

/// For each of `regions` regions, the positions of the adjacency edges that
/// have it as an endpoint, in increasing order.
pub fn edges_by_region(region_edges: &Vec<(usize, usize)>, regions: usize) -> (out: Vec<Vec<usize>>)
    requires
        edges_within(region_edges@, regions as nat),
    ensures
        out@.len() == regions,
        forall|r: int|
            0 <= r < regions ==> (#[trigger] out@[r])@ == incident_edges(
                region_edges@,
                r,
                region_edges@.len(),
            ),
        forall|r: int, k: int|
            0 <= r < regions && 0 <= k < out@[r]@.len() ==> #[trigger] out@[r]@[k] < region_edges@.len()
                && touches(region_edges@[out@[r]@[k] as int], r),
{
    let ghost es = region_edges@;
    let mut out: Vec<Vec<usize>> = Vec::new();
    let mut r: usize = 0;
    while r < regions
        invariant
            r <= regions,
            out@.len() == r,
            forall|q: int| 0 <= q < r ==> (#[trigger] out@[q])@ == Seq::<usize>::empty(),
        decreases regions - r,
    {
        out.push(Vec::new());
        r += 1;
    }
    let mut i: usize = 0;
    while i < region_edges.len()
        invariant
            i <= es.len(),
            es == region_edges@,
            edges_within(es, regions as nat),
            out@.len() == regions,
            forall|q: int| 0 <= q < regions ==> (#[trigger] out@[q])@ == incident_edges(es, q, i as nat),
        decreases es.len() - i,
    {
        let (a, b) = region_edges[i];
        assert(es[i as int] == (a, b));
        let ghost before = out@;
        out[a].push(i);
        if b != a {
            out[b].push(i);
        }
        assert forall|q: int| 0 <= q < regions implies (#[trigger] out@[q])@ == incident_edges(
            es,
            q,
            (i + 1) as nat,
        ) by {
            if q != a as int && q != b as int {
                assert(out@[q] == before[q]);
            }
        }
        i += 1;
    }
    proof {
        assert(es.len() == region_edges.len());
        assert forall|r: int, k: int|
            0 <= r < regions && 0 <= k < out@[r]@.len() implies #[trigger] out@[r]@[k] < es.len()
                && touches(es[out@[r]@[k] as int], r) by {
            lemma_incident_edges_touch(es, r, es.len());
        }
    }
    out
}

} // verus!
