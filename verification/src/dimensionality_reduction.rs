//! Decision logic of SVD-based dimensionality reduction.
//!
//! The reducer projects a set of equal-length vectors onto their top
//! principal directions. The singular value decomposition itself is
//! floating-point work done by the host; the configuration and every input
//! check are here, with exact contracts.

use crate::error::PluginError;
use vstd::prelude::*;

verus! {

/// Configuration of the SVD reduction strategy: whether to center the data
/// (subtract column means) and whether to scale it (divide by column
/// standard deviations).
pub struct SVDReducer {
    center: bool,
    scale: bool,
}

impl SVDReducer {
    /// Whether this reducer centers the data.
    pub closed spec fn centers(self) -> bool {
        self.center
    }

    /// Whether this reducer scales the data.
    pub closed spec fn scales(self) -> bool {
        self.scale
    }

    /// A reducer with the standard PCA-via-SVD setup: centering on,
    /// scaling off.
    pub fn new() -> (r: Self)
        ensures
            r.centers(),
            !r.scales(),
    {
        SVDReducer { center: true, scale: false }
    }

    /// A reducer with explicit centering and scaling choices.
    pub fn with_options(center: bool, scale: bool) -> (r: Self)
        ensures
            r.centers() == center,
            r.scales() == scale,
    {
        SVDReducer { center, scale }
    }

    /// Whether centering is on.
    pub fn is_centering(&self) -> (b: bool)
        ensures
            b == self.centers(),
    {
        self.center
    }

    /// Whether scaling is on.
    pub fn is_scaling(&self) -> (b: bool)
        ensures
            b == self.scales(),
    {
        self.scale
    }

    /// The name of this reduction method.
    pub fn method_name(&self) -> (r: &'static str)
        ensures
            r@ == "SVD"@,
    {
        "SVD"
    }

    /// The input checks of `reduce`, over the vectors' lengths alone:
    /// reduction needs at least one vector, uniform dimensionality, and a
    /// target dimension no larger than the source one. Returns the common
    /// source dimension.
    pub fn validate_reduce_input(&self, lengths: &Vec<usize>, target_dims: usize) -> (r: Result<
        usize,
        PluginError,
    >)
        ensures
            r is Ok <==> (lengths@.len() > 0 && target_dims <= lengths@[0] && forall|i: int|
                0 <= i < lengths@.len() ==> #[trigger] lengths@[i] == lengths@[0]),
            r matches Ok(dim) ==> dim == lengths@[0],
            r matches Err(e) ==> if lengths@.len() == 0 {
                e == (PluginError::InsufficientData { required: 1, provided: 0 })
            } else if exists|i: int| 0 <= i < lengths@.len() && #[trigger] lengths@[i] != lengths@[0] {
                exists|i: int|
                    0 <= i < lengths@.len() && #[trigger] lengths@[i] != lengths@[0] && (forall|
                        j: int,
                    |
                        0 <= j < i ==> #[trigger] lengths@[j] == lengths@[0]) && e
                        == (PluginError::InvalidVectorDimensions {
                        expected: lengths@[0],
                        got: lengths@[i],
                        vector_index: i as usize,
                    })
            } else {
                target_dims > lengths@[0] && (e matches PluginError::DimensionalityReductionError {
                    method,
                    reason: _,
                } && method@ == "SVD"@)
            },
    {
        if lengths.len() == 0 {
            return Err(PluginError::InsufficientData { required: 1, provided: 0 });
        }
        let dim = lengths[0];
        let mut i: usize = 1;
        while i < lengths.len()
            invariant
                1 <= i <= lengths@.len(),
                dim == lengths@[0],
                forall|j: int| 0 <= j < i ==> #[trigger] lengths@[j] == lengths@[0],
            decreases lengths@.len() - i,
        {
            if lengths[i] != dim {
                let err = PluginError::InvalidVectorDimensions {
                    expected: dim,
                    got: lengths[i],
                    vector_index: i,
                };
                proof {
                    assert(exists|q: int|
                        0 <= q < lengths@.len() && #[trigger] lengths@[q] != lengths@[0] && (forall|
                            j: int,
                        |
                            0 <= j < q ==> #[trigger] lengths@[j] == lengths@[0]) && err
                            == (PluginError::InvalidVectorDimensions {
                            expected: lengths@[0],
                            got: lengths@[q],
                            vector_index: q as usize,
                        })) by {
                        assert(lengths@[i as int] != lengths@[0] && (forall|j: int|
                            0 <= j < i as int ==> #[trigger] lengths@[j] == lengths@[0]) && err
                            == (PluginError::InvalidVectorDimensions {
                            expected: lengths@[0],
                            got: lengths@[i as int],
                            vector_index: i as int as usize,
                        }));
                    }
                }
                return Err(err);
            }
            i = i + 1;
        }
        if target_dims > dim {
            let method = String::from_str("SVD");
            let reason = fmt_target_dims_message(target_dims, dim);
            return Err(PluginError::DimensionalityReductionError { method, reason });
        }
        Ok(dim)
    }
}

impl Default for SVDReducer {
    /// The default reducer centers and does not scale, as `new` does.
    fn default() -> (r: Self)
        ensures
            r.centers(),
            !r.scales(),
    {
        Self::new()
    }
}

/// Relies on std's `format` machinery: a message naming the target and
/// source dimensions of a failed projection.
#[verifier::external_body]
fn fmt_target_dims_message(target_dims: usize, dim: usize) -> (r: String) {
    format!("Target dimensions ({target_dims}) cannot exceed input dimensions ({dim})")
}

} // verus!
