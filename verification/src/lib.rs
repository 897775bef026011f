//! A small numeric engine over note-link graphs.
//!
//! The library turns a list of directed note-to-note links into sparse graph
//! matrices (adjacency and Laplacian), exposes the decision logic behind
//! dimensionality reduction and k-means clustering, and models every result
//! with exact contracts.

pub mod adjacency_matrix;
pub mod dimensionality_reduction;
pub mod error;
pub mod sparse;
pub mod vector_ops;

pub use adjacency_matrix::AdjacencyMatrixBuilder;
pub use adjacency_matrix::NoteLink;
pub use dimensionality_reduction::SVDReducer;
pub use error::PluginError;
pub use vector_ops::assign_clusters;
pub use vector_ops::check_distance_dims;
pub use vector_ops::cluster_counts;
pub use vector_ops::max_index;
pub use vector_ops::min_index;
pub use vector_ops::validate_clustering_input;
