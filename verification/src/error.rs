use vstd::prelude::*;

verus! {

/// Errors of the numeric engine: a closed set of tagged variants carrying
/// structured context, so callers can branch on the kind of failure.
#[derive(Debug, Clone, PartialEq, Eq)]
pub enum PluginError {
    /// A reduction strategy failed, either on its parameters or numerically.
    DimensionalityReductionError {
        /// The reduction method that failed.
        method: String,
        /// Explanation of why it failed.
        reason: String,
    },
    /// Ragged input: a vector's length differs from the expected one.
    InvalidVectorDimensions {
        /// Expected dimensionality.
        expected: usize,
        /// Actual dimensionality received.
        got: usize,
        /// Index of the offending vector.
        vector_index: usize,
    },
    /// Too few data points for the operation to be well-defined.
    InsufficientData {
        /// Required minimum number of data points.
        required: usize,
        /// Actual number of data points provided.
        provided: usize,
    },
    /// A link refers to a note index outside the vault.
    InvalidLinkIndex {
        /// Source note index of the offending link.
        from: usize,
        /// Target note index of the offending link.
        to: usize,
        /// Largest valid note index.
        max: usize,
    },
    /// Normalization is undefined for a vector of (effectively) zero norm.
    ZeroNormVector,
}

} // verus!
