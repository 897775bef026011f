//! Decision logic of the vector operations: input validation for distance
//! and clustering, and the selection steps of k-means.
//!
//! The floating-point arithmetic itself (norms, distances, centroid means)
//! lives with the host. The host ranks candidates by order-preserving `u64`
//! keys (the bit patterns of non-negative IEEE doubles order like the
//! doubles themselves), and the functions here make every selection and
//! bookkeeping decision from those keys, with proofs.

use crate::error::PluginError;
use vstd::prelude::*;

verus! {

/// The number of positions that an assignment maps to cluster `j`.
pub open spec fn count_assigned(assignments: Seq<usize>, j: int) -> int
    decreases assignments.len(),
{
    if assignments.len() == 0 {
        0
    } else {
        count_assigned(assignments.drop_last(), j) + if assignments.last() == j {
            1int
        } else {
            0int
        }
    }
}

/// Whether `j` is the position of the smallest key in `row`, first
/// occurrence winning.
pub open spec fn is_first_min(row: Seq<u64>, j: int) -> bool {
    &&& 0 <= j < row.len()
    &&& forall|q: int| 0 <= q < row.len() ==> row[j] <= #[trigger] row[q]
    &&& forall|q: int| 0 <= q < j ==> #[trigger] row[q] > row[j]
}

/// Whether `j` is the position of the largest key in `row`, first
/// occurrence winning.
pub open spec fn is_first_max(row: Seq<u64>, j: int) -> bool {
    &&& 0 <= j < row.len()
    &&& forall|q: int| 0 <= q < row.len() ==> row[j] >= #[trigger] row[q]
    &&& forall|q: int| 0 <= q < j ==> #[trigger] row[q] < row[j]
}

/// The dimension check of the Euclidean distance: two vectors compare only
/// if their lengths agree.
pub fn check_distance_dims(a_len: usize, b_len: usize) -> (r: Result<(), PluginError>)
    ensures
        r is Ok <==> a_len == b_len,
        r matches Err(e) ==> e == (PluginError::InvalidVectorDimensions {
            expected: a_len,
            got: b_len,
            vector_index: 0,
        }),
{
    if a_len != b_len {
        Err(PluginError::InvalidVectorDimensions { expected: a_len, got: b_len, vector_index: 0 })
    } else {
        Ok(())
    }
}

/// The input checks of k-means, over the vectors' lengths alone: clustering
/// needs at least one vector, a cluster count between one and the number of
/// vectors, and uniform dimensionality.
pub fn validate_clustering_input(lengths: &Vec<usize>, k: usize) -> (r: Result<(), PluginError>)
    ensures
        r is Ok <==> (lengths@.len() > 0 && 1 <= k <= lengths@.len() && forall|i: int|
            0 <= i < lengths@.len() ==> #[trigger] lengths@[i] == lengths@[0]),
        r matches Err(e) ==> if lengths@.len() == 0 || k == 0 {
            e == (PluginError::InsufficientData { required: 1, provided: 0 })
        } else if k > lengths@.len() {
            e == (PluginError::InsufficientData {
                required: k,
                provided: lengths@.len() as usize,
            })
        } else {
            exists|i: int|
                0 <= i < lengths@.len() && #[trigger] lengths@[i] != lengths@[0] && (forall|
                j: int,
            |
                    0 <= j < i ==> #[trigger] lengths@[j] == lengths@[0]) && e
                    == (PluginError::InvalidVectorDimensions {
                    expected: lengths@[0],
                    got: lengths@[i],
                    vector_index: i as usize,
                })
        },
{
    if lengths.len() == 0 {
        return Err(PluginError::InsufficientData { required: 1, provided: 0 });
    }
    if k == 0 {
        return Err(PluginError::InsufficientData { required: 1, provided: 0 });
    }
    if k > lengths.len() {
        return Err(PluginError::InsufficientData { required: k, provided: lengths.len() });
    }
    let dim = lengths[0];
    let mut i: usize = 1;
    while i < lengths.len()
        invariant
            1 <= i <= lengths@.len(),
            1 <= k <= lengths@.len(),
            dim == lengths@[0],
            forall|j: int| 0 <= j < i ==> #[trigger] lengths@[j] == lengths@[0],
        decreases lengths@.len() - i,
    {
        if lengths[i] != dim {
            let err = PluginError::InvalidVectorDimensions {
                expected: dim,
                got: lengths[i],
                vector_index: i,
            };
            proof {
                assert(exists|q: int|
                    0 <= q < lengths@.len() && #[trigger] lengths@[q] != lengths@[0] && (forall|
                        j: int,
                    |
                        0 <= j < q ==> #[trigger] lengths@[j] == lengths@[0]) && err
                        == (PluginError::InvalidVectorDimensions {
                        expected: lengths@[0],
                        got: lengths@[q],
                        vector_index: q as usize,
                    })) by {
                    assert(lengths@[i as int] != lengths@[0] && (forall|j: int|
                        0 <= j < i as int ==> #[trigger] lengths@[j] == lengths@[0]) && err
                        == (PluginError::InvalidVectorDimensions {
                        expected: lengths@[0],
                        got: lengths@[i as int],
                        vector_index: i as int as usize,
                    }));
                }
            }
            return Err(err);
        }
        i = i + 1;
    }
    Ok(())
}

/// The index of the smallest key, first occurrence winning.
pub fn min_index(keys: &Vec<u64>) -> (r: usize)
    requires
        keys@.len() > 0,
    ensures
        is_first_min(keys@, r as int),
{
    let mut best: usize = 0;
    let mut i: usize = 1;
    while i < keys.len()
        invariant
            best < i <= keys@.len(),
            forall|q: int| 0 <= q < i ==> keys@[best as int] <= #[trigger] keys@[q],
            forall|q: int| 0 <= q < best ==> #[trigger] keys@[q] > keys@[best as int],
        decreases keys@.len() - i,
    {
        if keys[i] < keys[best] {
            best = i;
        }
        i = i + 1;
    }
    best
}

/// The index of the largest key, first occurrence winning: the farthest
/// point in the deterministic k-means++-style seeding.
pub fn max_index(keys: &Vec<u64>) -> (r: usize)
    requires
        keys@.len() > 0,
    ensures
        is_first_max(keys@, r as int),
{
    let mut best: usize = 0;
    let mut i: usize = 1;
    while i < keys.len()
        invariant
            best < i <= keys@.len(),
            forall|q: int| 0 <= q < i ==> keys@[best as int] >= #[trigger] keys@[q],
            forall|q: int| 0 <= q < best ==> #[trigger] keys@[q] < keys@[best as int],
        decreases keys@.len() - i,
    {
        if keys[i] > keys[best] {
            best = i;
        }
        i = i + 1;
    }
    best
}

/// One assignment step of Lloyd's iteration, decided from distance keys:
/// `keys[i][j]` ranks the distance from point i to centroid j (smaller is
/// closer, ties breaking toward the lower centroid index). Returns the new
/// assignment of every point, and whether any assignment changed against
/// `prev`.
pub fn assign_clusters(keys: &Vec<Vec<u64>>, k: usize, prev: &Vec<usize>) -> (r: (Vec<usize>, bool))
    requires
        k >= 1,
        prev@.len() == keys@.len(),
        forall|i: int| 0 <= i < keys@.len() ==> (#[trigger] keys@[i])@.len() == k,
    ensures
        r.0@.len() == keys@.len(),
        forall|i: int| 0 <= i < keys@.len() ==> (#[trigger] r.0@[i]) < k,
        forall|i: int| 0 <= i < keys@.len() ==> is_first_min(keys@[i]@, (#[trigger] r.0@[i]) as int),
        r.1 <==> exists|i: int| 0 <= i < keys@.len() && (#[trigger] r.0@[i]) != prev@[i],
{
    let mut out: Vec<usize> = Vec::new();
    let mut changed = false;
    let mut i: usize = 0;
    while i < keys.len()
        invariant
            i <= keys@.len(),
            out@.len() == i,
            k >= 1,
            prev@.len() == keys@.len(),
            forall|p: int| 0 <= p < keys@.len() ==> (#[trigger] keys@[p])@.len() == k,
            forall|p: int| 0 <= p < i ==> (#[trigger] out@[p]) < k,
            forall|p: int| 0 <= p < i ==> is_first_min(keys@[p]@, (#[trigger] out@[p]) as int),
            changed <==> exists|p: int| 0 <= p < i && (#[trigger] out@[p]) != prev@[p],
        decreases keys@.len() - i,
    {
        let ghost old_out = out@;
        let ghost old_changed = changed;
        let best = min_index(&keys[i]);
        if best != prev[i] {
            changed = true;
        }
        out.push(best);
        proof {
            if changed {
                if old_changed {
                    let p0 = choose|p: int| 0 <= p < i && (#[trigger] old_out[p]) != prev@[p];
                    assert(out@[p0] != prev@[p0]);
                } else {
                    assert(out@[i as int] != prev@[i as int]);
                }
            } else {
                assert forall|p: int| 0 <= p < i + 1 implies (#[trigger] out@[p]) == prev@[p] by {
                    if p < i {
                        assert(old_out[p] == prev@[p]);
                        assert(out@[p] == old_out[p]);
                    } else {
                        assert(out@[p] == best);
                    }
                }
            }
        }
        i = i + 1;
    }
    (out, changed)
}

proof fn lemma_count_assigned_push(assignments: Seq<usize>, x: usize, j: int)
    ensures
        count_assigned(assignments.push(x), j) == count_assigned(assignments, j) + if x == j {
            1int
        } else {
            0int
        },
{
    assert(assignments.push(x).drop_last() =~= assignments);
}

proof fn lemma_count_assigned_bounds(assignments: Seq<usize>, j: int)
    ensures
        0 <= count_assigned(assignments, j) <= assignments.len(),
    decreases assignments.len(),
{
    if assignments.len() > 0 {
        lemma_count_assigned_bounds(assignments.drop_last(), j);
    }
}

/// How many points each cluster holds under an assignment: the denominators
/// of the centroid means in the update step of Lloyd's iteration.
pub fn cluster_counts(assignments: &Vec<usize>, k: usize) -> (counts: Vec<usize>)
    requires
        forall|i: int| 0 <= i < assignments@.len() ==> (#[trigger] assignments@[i]) < k,
    ensures
        counts@.len() == k,
        forall|j: int|
            0 <= j < k ==> (#[trigger] counts@[j]) as int == count_assigned(assignments@, j),
{
    let mut counts: Vec<usize> = Vec::new();
    let mut j: usize = 0;
    while j < k
        invariant
            j <= k,
            counts@.len() == j,
            forall|q: int| 0 <= q < j ==> (#[trigger] counts@[q]) == 0usize,
        decreases k - j,
    {
        counts.push(0);
        j = j + 1;
    }
    proof {
        assert forall|q: int|
            0 <= q < k implies (#[trigger] counts@[q]) as int == count_assigned(
            assignments@.subrange(0, 0),
            q,
        ) by {
            assert(assignments@.subrange(0, 0).len() == 0);
        }
    }
    let mut i: usize = 0;
    while i < assignments.len()
        invariant
            i <= assignments@.len(),
            counts@.len() == k,
            forall|p: int| 0 <= p < assignments@.len() ==> (#[trigger] assignments@[p]) < k,
            forall|q: int|
                0 <= q < k ==> (#[trigger] counts@[q]) as int == count_assigned(
                    assignments@.subrange(0, i as int),
                    q,
                ),
        decreases assignments@.len() - i,
    {
        let ghost prefix = assignments@.subrange(0, i as int);
        let a = assignments[i];
        proof {
            lemma_count_assigned_bounds(prefix, a as int);
            assert(assignments@.subrange(0, i as int + 1) =~= prefix.push(assignments@[i as int]));
            assert forall|q: int|
                0 <= q < k implies count_assigned(prefix.push(assignments@[i as int]), q)
                == count_assigned(prefix, q) + if assignments@[i as int] == q {
                1int
            } else {
                0int
            } by {
                lemma_count_assigned_push(prefix, assignments@[i as int], q);
            }
        }
        let c = counts[a];
        counts[a] = c + 1;
        i = i + 1;
    }
    proof {
        assert(assignments@.subrange(0, assignments@.len() as int) =~= assignments@);
    }
    counts
}

} // verus!
