use voronoi_terrain::error::TerrainError;
use voronoi_terrain::topology::{build_edges, cells_are_valid, engine_topology, EdgeTopology};

fn grid_cells() -> Vec<Vec<usize>> {
    // A 2 x 2 patch of unit squares over a 3 x 3 vertex grid, all wound
    // counter-clockwise; vertex (x, y) has index y * 3 + x.
    let v = |x: usize, y: usize| y * 3 + x;
    let mut cells = Vec::new();
    for y in 0..2 {
        for x in 0..2 {
            cells.push(vec![v(x, y), v(x + 1, y), v(x + 1, y + 1), v(x, y + 1)]);
        }
    }
    cells
}

fn two_triangles() -> EdgeTopology {
    build_edges(&vec![vec![0, 1, 2], vec![0, 2, 3]], 4).unwrap()
}

#[test]
fn two_triangles_share_one_edge() {
    let t = two_triangles();
    assert_eq!(t.terrain_edges, vec![(0, 1), (1, 2), (2, 0), (2, 3), (3, 0)]);
    assert_eq!(t.region_edges, vec![(1, 0)]);
    assert_eq!(t.edges_by_vertex, vec![vec![0, 2], vec![1], vec![2, 3], vec![4]]);
}

#[test]
fn incident_indices_are_in_range() {
    let t = build_edges(&grid_cells(), 9).unwrap();
    assert_eq!(t.edges_by_vertex.len(), 9);
    for (v, list) in t.edges_by_vertex.iter().enumerate() {
        for &e in list {
            assert!(e < t.terrain_edges.len());
            let (a, b) = t.terrain_edges[e];
            assert!(a == v || b == v);
        }
    }
    for &(a, b) in &t.terrain_edges {
        assert!(a < 9 && b < 9);
    }
}

#[test]
fn no_undirected_edge_is_stored_twice() {
    let t = build_edges(&grid_cells(), 9).unwrap();
    for (i, &(a, b)) in t.terrain_edges.iter().enumerate() {
        for (j, &(c, d)) in t.terrain_edges.iter().enumerate() {
            if i != j {
                assert!((a, b) != (c, d) && (a, b) != (d, c));
            }
        }
    }
}

#[test]
fn region_adjacency_is_proper_and_recorded_once() {
    let t = build_edges(&grid_cells(), 9).unwrap();
    assert_eq!(t.region_edges, vec![(1, 0), (2, 0), (3, 1), (3, 2)]);
    for (i, &(a, b)) in t.region_edges.iter().enumerate() {
        assert_ne!(a, b);
        for (j, &(c, d)) in t.region_edges.iter().enumerate() {
            if i != j {
                assert!((a, b) != (c, d) && (a, b) != (d, c));
            }
        }
    }
}

#[test]
fn grid_patch_euler_characteristic() {
    let t = build_edges(&grid_cells(), 9).unwrap();
    let v = 9i64;
    let e = t.terrain_edges.len() as i64;
    let f = 4i64;
    assert_eq!(e, 12);
    // The open patch counts one face short of a closed surface.
    assert_eq!(v - e + f, 1);
    assert_eq!(v - e + f + 1, 2);
}

#[test]
fn same_cells_give_same_topology() {
    let x = build_edges(&grid_cells(), 9).unwrap();
    let y = build_edges(&grid_cells(), 9).unwrap();
    assert_eq!(x.terrain_edges, y.terrain_edges);
    assert_eq!(x.region_edges, y.region_edges);
    assert_eq!(x.edges_by_vertex, y.edges_by_vertex);
}

#[test]
fn exterior_edges_have_no_region_edge() {
    let t = build_edges(&vec![vec![0, 1, 2]], 3).unwrap();
    assert_eq!(t.terrain_edges, vec![(0, 1), (1, 2), (2, 0)]);
    assert!(t.region_edges.is_empty());
}

#[test]
fn unused_vertex_has_no_edges() {
    let t = build_edges(&vec![vec![0, 1, 2]], 5).unwrap();
    assert_eq!(t.edges_by_vertex, vec![vec![0], vec![1], vec![2], vec![], vec![]]);
}

#[test]
fn no_cells_give_empty_topology() {
    let t = build_edges(&vec![], 2).unwrap();
    assert!(t.terrain_edges.is_empty());
    assert!(t.region_edges.is_empty());
    assert_eq!(t.edges_by_vertex, vec![Vec::<usize>::new(), vec![]]);
}

#[test]
fn short_cell_is_invalid_input() {
    assert_eq!(build_edges(&vec![vec![0, 1]], 3).err(), Some(TerrainError::InvalidInput));
    assert!(!cells_are_valid(&vec![vec![0, 1]], 3));
}

#[test]
fn vertex_out_of_range_is_invalid_input() {
    assert_eq!(build_edges(&vec![vec![0, 1, 3]], 3).err(), Some(TerrainError::InvalidInput));
}

#[test]
fn repeated_consecutive_vertex_is_invalid_input() {
    assert_eq!(build_edges(&vec![vec![0, 1, 1, 2]], 3).err(), Some(TerrainError::InvalidInput));
    assert_eq!(build_edges(&vec![vec![0, 1, 2, 0]], 3).err(), Some(TerrainError::InvalidInput));
    assert!(cells_are_valid(&vec![vec![0, 1, 2]], 3));
}

#[test]
fn same_direction_twice_is_inconsistent() {
    let cells = vec![vec![0, 1, 2], vec![0, 1, 3]];
    assert_eq!(build_edges(&cells, 4).err(), Some(TerrainError::TopologyInconsistency));
}

#[test]
fn edge_shared_by_three_cells_is_inconsistent() {
    let cells = vec![vec![0, 1, 2], vec![1, 0, 3], vec![1, 0, 4]];
    assert_eq!(build_edges(&cells, 5).err(), Some(TerrainError::TopologyInconsistency));
}

#[test]
fn cell_sharing_edge_with_itself_is_inconsistent() {
    let cells = vec![vec![0, 1, 2, 1]];
    assert_eq!(build_edges(&cells, 3).err(), Some(TerrainError::TopologyInconsistency));
}

#[test]
fn cells_sharing_every_edge_record_each_shared_edge() {
    // Two quadrilaterals over the same four vertices, wound oppositely: they
    // share all four boundary edges, so the adjacency is recorded four times.
    let t = build_edges(&vec![vec![0, 1, 2, 3], vec![1, 0, 3, 2]], 4).unwrap();
    assert_eq!(t.terrain_edges.len(), 4);
    assert_eq!(t.region_edges, vec![(1, 0), (1, 0), (1, 0), (1, 0)]);
}

#[test]
fn interior_edges_match_region_edges() {
    let cells = grid_cells();
    let t = build_edges(&cells, 9).unwrap();
    let walks = |a: usize, b: usize| {
        cells.iter().any(|c| (0..c.len()).any(|k| c[k] == a && c[(k + 1) % c.len()] == b))
    };
    let interior = t.terrain_edges.iter().filter(|&&(a, b)| walks(b, a)).count();
    assert_eq!(interior, 4);
    assert_eq!(t.region_edges.len(), interior);
}

#[test]
fn engine_cells_that_are_not_valid_are_a_dependency_failure() {
    assert_eq!(engine_topology(&vec![vec![0, 1]], 3).err(), Some(TerrainError::DependencyFailure));
    let cells = vec![vec![0, 1, 2], vec![0, 1, 3]];
    assert_eq!(engine_topology(&cells, 4).err(), Some(TerrainError::TopologyInconsistency));
    let t = engine_topology(&vec![vec![0, 1, 2], vec![0, 2, 3]], 4).unwrap();
    assert_eq!(t.terrain_edges, two_triangles().terrain_edges);
}

#[test]
fn sides_are_counted_once() {
    let cells = grid_cells();
    let t = build_edges(&cells, 9).unwrap();
    let sides: usize = cells.iter().map(|c| c.len()).sum();
    assert_eq!(sides, 16);
    assert_eq!(t.terrain_edges.len() + t.region_edges.len(), sides);
}
