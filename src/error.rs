use vstd::prelude::*;

verus! {

/// The ways in which building a terrain can fail.
#[derive(Debug, Clone, Copy, PartialEq, Eq, Structural)]
pub enum TerrainError {
    /// The sites or cells handed in cannot form a well-formed decomposition.
    InvalidInput,
    /// The cells are not wound consistently: an edge is traversed twice in
    /// the same direction, shared by more than two cells, or shared by a cell
    /// with itself.
    TopologyInconsistency,
    /// The tessellation or the noise function failed.
    DependencyFailure,
}

} // verus!
