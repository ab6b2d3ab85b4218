use voronoi_terrain::adjacency::edges_by_region;
use voronoi_terrain::graph::edges_are_within;
use voronoi_terrain::graph::Graph;

#[test]
fn graph_keeps_its_parts() {
    let g = Graph::new(vec!['a', 'b', 'c'], vec![(0, 1), (1, 2)]);
    assert_eq!(g.vertices, vec!['a', 'b', 'c']);
    assert_eq!(g.edges, vec![(0, 1), (1, 2)]);
}

#[test]
fn graph_with_dangling_edge_is_refused() {
    assert!(Graph::try_new(vec![1u8, 2], vec![(0, 2)]).is_none());
    let g = Graph::try_new(vec![1u8, 2], vec![(1, 0)]).unwrap();
    assert_eq!(g.edges, vec![(1, 0)]);
}

#[test]
fn region_incidence_lists_touching_edges() {
    let out = edges_by_region(&vec![(1, 0), (2, 0), (3, 1), (3, 2)], 5);
    assert_eq!(out, vec![vec![0, 1], vec![0, 2], vec![1, 3], vec![2, 3], vec![]]);
}

#[test]
fn edge_range_check() {
    assert!(edges_are_within(&vec![(0, 1), (1, 2)], 3));
    assert!(!edges_are_within(&vec![(0, 1), (1, 3)], 3));
}
