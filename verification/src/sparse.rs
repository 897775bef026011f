//! Trusted boundary around the `sprs` sparse-matrix crate.
//!
//! The graph builder stores its matrices in `sprs` structures with `i64`
//! entries (link counts, out-degrees and their differences are integers).
//! Verus cannot read `sprs`'s types (their bounds name the `SpIndex` trait),
//! so each collection is held in a private field of an opaque struct and is
//! described by two uninterpreted names: the map of entries it holds and the
//! dimension it was created with. Every `sprs` method the library calls is
//! wrapped here with a contract that states what the `sprs` source shows.

use vstd::prelude::*;

verus! {

/// A triplet accumulator of a square integer matrix, backed by
/// `sprs::TriMat<i64>`.
#[verifier::external_body]
pub struct TripletMatrix {
    inner: sprs::TriMat<i64>,
}

/// A square integer matrix in compressed sparse row form, backed by
/// `sprs::CsMat<i64>`.
#[verifier::external_body]
pub struct SparseMatrix {
    inner: sprs::CsMat<i64>,
}

/// The number of rows (equally, columns) a triplet accumulator was created
/// with.
pub uninterp spec fn tri_dim(t: TripletMatrix) -> int;

/// The entries a triplet accumulator holds, keyed by (row, column).
pub uninterp spec fn tri_entries(t: TripletMatrix) -> Map<(int, int), int>;

/// The number of rows (equally, columns) a sparse matrix was created with.
pub uninterp spec fn matrix_dim(m: SparseMatrix) -> int;

/// The entries a sparse matrix stores explicitly, keyed by (row, column).
pub uninterp spec fn matrix_entries(m: SparseMatrix) -> Map<(int, int), int>;

/// The value of a sparse matrix at (i, j): a missing entry is zero.
pub open spec fn entry_or_zero(m: SparseMatrix, i: int, j: int) -> int {
    if matrix_entries(m).dom().contains((i, j)) {
        matrix_entries(m)[(i, j)]
    } else {
        0
    }
}

/// Holds when a triplet accumulator has no entries at all.
pub open spec fn tri_is_empty(t: TripletMatrix) -> bool {
    tri_entries(t) == Map::<(int, int), int>::empty()
}

/// Relies on `sprs::TriMat::new`: an empty triplet matrix of the given
/// square shape.
#[verifier::external_body]
pub(crate) fn tri_new(n: usize) -> (t: TripletMatrix)
    ensures
        tri_dim(t) == n as int,
        tri_is_empty(t),
{
    TripletMatrix { inner: sprs::TriMat::new((n, n)) }
}

/// Relies on `sprs::TriMat::add_triplet`: appends one entry. It panics only
/// on an index outside the shape, which the precondition rules out; the
/// precondition also keeps positions distinct, so the map model stays exact
/// (`sprs` would sum entries at one position when compressing).
#[verifier::external_body]
pub(crate) fn tri_add(t: &mut TripletMatrix, row: usize, col: usize, val: i64)
    requires
        row < tri_dim(*old(t)),
        col < tri_dim(*old(t)),
        !tri_entries(*old(t)).dom().contains((row as int, col as int)),
    ensures
        tri_dim(*final(t)) == tri_dim(*old(t)),
        tri_entries(*final(t)) == tri_entries(*old(t)).insert(
            (row as int, col as int),
            val as int,
        ),
{
    t.inner.add_triplet(row, col, val);
}

/// Relies on `sprs::TriMat::to_csr`: a CSR matrix of the same shape holding
/// exactly the accumulated entries (positions are distinct by the
/// precondition of `tri_add`, so no summing of duplicates happens).
#[verifier::external_body]
pub(crate) fn tri_to_csr(t: &TripletMatrix) -> (m: SparseMatrix)
    ensures
        matrix_dim(m) == tri_dim(*t),
        matrix_entries(m) == tri_entries(*t),
{
    SparseMatrix { inner: t.inner.to_csr() }
}

/// Relies on `sprs::CsMat::outer_view` and the iteration of the returned
/// `CsVecView`: one row's stored entries as (column, value) pairs. The CSR
/// invariant keeps column indices below the shape, and every non-zero value
/// of the row is stored.
#[verifier::external_body]
pub(crate) fn matrix_row(m: &SparseMatrix, i: usize) -> (row: Vec<(usize, i64)>)
    requires
        i < matrix_dim(*m),
    ensures
        forall|a: int|
            0 <= a < row@.len() ==> row@[a].0 < matrix_dim(*m) && entry_or_zero(
                *m,
                i as int,
                row@[a].0 as int,
            ) == row@[a].1 as int,
        forall|c: int|
            0 <= c < matrix_dim(*m) && entry_or_zero(*m, i as int, c) != 0 ==> exists|a: int|
                0 <= a < row@.len() && row@[a].0 == c,
{
    match m.inner.outer_view(i) {
        Some(v) => v.iter().map(|(c, val)| (c, *val)).collect(),
        None => Vec::new(),
    }
}

/// Relies on the `Sub` impl for `&CsMat`: the entrywise difference, with zero
/// inferred for a missing entry. It panics only on mismatched dimensions,
/// which the precondition rules out; the precondition also keeps every
/// entrywise `i64` subtraction from overflowing.
#[verifier::external_body]
pub(crate) fn matrix_sub(a: &SparseMatrix, b: &SparseMatrix) -> (r: SparseMatrix)
    requires
        matrix_dim(*a) == matrix_dim(*b),
        forall|i: int, j: int|
            0 <= i < matrix_dim(*a) && 0 <= j < matrix_dim(*a) ==> i64::MIN <= #[trigger] entry_or_zero(*a, i, j) - entry_or_zero(*b, i, j) <= i64::MAX,
    ensures
        matrix_dim(r) == matrix_dim(*a),
        forall|i: int, j: int|
            0 <= i < matrix_dim(r) && 0 <= j < matrix_dim(r) ==> #[trigger] entry_or_zero(r, i, j)
                == entry_or_zero(*a, i, j) - entry_or_zero(*b, i, j),
{
    SparseMatrix { inner: &a.inner - &b.inner }
}

} // verus!
