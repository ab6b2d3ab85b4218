use voronoi_terrain::builder::{check_sites, VoronoiTerrainBuilder};
use voronoi_terrain::error::TerrainError;

fn bits(x: f64, y: f64) -> (u64, u64) {
    (x.to_bits(), y.to_bits())
}

#[test]
fn defaults_of_a_new_builder() {
    let b = VoronoiTerrainBuilder::new(7);
    assert_eq!(b.water_level(), 50);
    assert_eq!(b.height(), 100);
    assert!(b.sites().is_empty());
}

#[test]
fn setters_chain_and_keep_other_settings() {
    let mut b = VoronoiTerrainBuilder::new(7);
    b.set_seed(42).set_water_level(7).set_height(300);
    b.set_sites(vec![bits(0.0, 0.0), bits(1.0, 0.0), bits(0.0, 1.0)]);
    assert_eq!(b.seed(), 42);
    assert_eq!(b.water_level(), 7);
    assert_eq!(b.height(), 300);
    assert_eq!(b.sites().len(), 3);
    assert_eq!(b.validate(), Ok(()));
}

#[test]
fn single_site_is_invalid_input() {
    let sites = vec![bits(0.5, 0.5)];
    assert_eq!(check_sites(&sites), Err(TerrainError::InvalidInput));
}

#[test]
fn no_sites_is_invalid_input() {
    let b = VoronoiTerrainBuilder::new(7);
    assert_eq!(b.validate(), Err(TerrainError::InvalidInput));
}

#[test]
fn duplicate_sites_are_invalid_input() {
    let sites = vec![bits(0.0, 0.0), bits(1.0, 0.0), bits(0.0, 1.0), bits(1.0, 0.0)];
    assert_eq!(check_sites(&sites), Err(TerrainError::InvalidInput));
}

#[test]
fn sites_differing_in_one_coordinate_are_accepted() {
    let sites = vec![bits(0.0, 0.0), bits(0.0, 1.0), bits(1.0, 0.0), bits(1.0, 1.0)];
    assert_eq!(check_sites(&sites), Ok(()));
}

#[test]
fn signed_zeros_are_the_same_site() {
    let sites = vec![bits(0.0, 0.0), bits(-0.0, 0.0), bits(1.0, 1.0)];
    assert_eq!(check_sites(&sites), Err(TerrainError::InvalidInput));
    let sites = vec![bits(1.0, 0.0), bits(1.0, -0.0), bits(0.0, 1.0)];
    assert_eq!(check_sites(&sites), Err(TerrainError::InvalidInput));
}

#[test]
fn nan_coordinate_is_invalid_input() {
    let sites = vec![bits(0.0, 0.0), bits(f64::NAN, 1.0), bits(1.0, 1.0)];
    assert_eq!(check_sites(&sites), Err(TerrainError::InvalidInput));
    let sites = vec![bits(0.0, 0.0), bits(1.0, -f64::NAN), bits(1.0, 1.0)];
    assert_eq!(check_sites(&sites), Err(TerrainError::InvalidInput));
}

#[test]
fn infinite_coordinates_are_not_nan() {
    let sites = vec![bits(f64::INFINITY, 0.0), bits(f64::NEG_INFINITY, 0.0), bits(1.0, 1.0)];
    assert_eq!(check_sites(&sites), Ok(()));
}

#[test]
fn noise_seed_folds_both_halves() {
    let mut b = VoronoiTerrainBuilder::new(7);
    b.set_seed(42);
    assert_eq!(b.noise_seed(), 42);
    b.set_seed(0x0000_0003_0000_0005);
    assert_eq!(b.noise_seed(), 8);
    b.set_seed(0x0000_0001_FFFF_FFFF);
    assert_eq!(b.noise_seed(), 0);
}

#[test]
fn new_builder_keeps_the_given_seed() {
    let b = VoronoiTerrainBuilder::new(42);
    assert_eq!(b.seed(), 42);
    assert_eq!(b.noise_seed(), 42);
}
