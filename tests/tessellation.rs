use delaunay2d::Delaunay2D;
use voronoi_terrain::topology::build_edges;

#[test]
fn unit_square_golden_counts() {
    let mut dt = Delaunay2D::new((0.0, 0.0), 9999.0);
    for site in [(0.0, 0.0), (1.0, 0.0), (0.0, 1.0), (1.0, 1.0)] {
        dt.add_point(site);
    }
    let (vertices, cells) = dt.export_voronoi_regions();
    let t = build_edges(&cells, vertices.len()).unwrap();
    assert_eq!(vertices.len(), 10);
    assert_eq!(cells.len(), 4);
    assert_eq!(t.terrain_edges.len(), 13);
    assert_eq!(t.region_edges.len(), 5);
}
