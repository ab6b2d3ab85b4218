//! Procedural terrain topology: deduplicated terrain edges and region
//! adjacency derived from a polygonal cell decomposition.

pub mod error;
pub mod graph;
pub mod key;
pub mod model;
pub mod topology;
pub mod laws;
pub mod builder;
pub mod adjacency;
