//! Adjacency-matrix builder for the note-link graph.
//!
//! The builder turns a list of directed note-to-note links into a sparse
//! weighted adjacency matrix, where entry (i, j) counts the links from note i
//! to note j, and derives the graph Laplacian L = D - A from it.

use crate::error::PluginError;
use crate::sparse::entry_or_zero;
use crate::sparse::matrix_dim;
use crate::sparse::matrix_row;
use crate::sparse::matrix_sub;
use crate::sparse::tri_add;
use crate::sparse::tri_dim;
use crate::sparse::tri_entries;
use crate::sparse::tri_new;
use crate::sparse::tri_to_csr;
use crate::sparse::SparseMatrix;
use crate::sparse::TripletMatrix;
use vstd::prelude::*;

verus! {

/// A directed link between two notes of the vault, by note index.
#[derive(Debug, Clone, PartialEq, Eq, Structural)]
pub struct NoteLink {
    /// Source note index.
    pub from_id: usize,
    /// Target note index.
    pub to_id: usize,
}

/// Whether a link stays inside a vault of `n` notes.
pub open spec fn link_valid(l: NoteLink, n: int) -> bool {
    l.from_id < n && l.to_id < n
}

/// Whether every link stays inside a vault of `n` notes.
pub open spec fn all_links_valid(links: Seq<NoteLink>, n: int) -> bool {
    forall|k: int| 0 <= k < links.len() ==> link_valid(#[trigger] links[k], n)
}

/// The number of links from `from` to `to`, duplicates and self-loops
/// included.
pub open spec fn link_count(links: Seq<NoteLink>, from: int, to: int) -> int
    decreases links.len(),
{
    if links.len() == 0 {
        0
    } else {
        link_count(links.drop_last(), from, to) + if links.last().from_id == from
            && links.last().to_id == to {
            1int
        } else {
            0int
        }
    }
}

/// The out-degree of `from`: the number of links that leave it.
pub open spec fn out_degree(links: Seq<NoteLink>, from: int) -> int
    decreases links.len(),
{
    if links.len() == 0 {
        0
    } else {
        out_degree(links.drop_last(), from) + if links.last().from_id == from {
            1int
        } else {
            0int
        }
    }
}

/// The Laplacian value at (i, j): the out-degree on the diagonal, minus the
/// adjacency count everywhere.
pub open spec fn laplacian_entry(links: Seq<NoteLink>, i: int, j: int) -> int {
    (if i == j {
        out_degree(links, i)
    } else {
        0int
    }) - link_count(links, i, j)
}

/// The sum of the adjacency counts of row `i` over columns `0..cols`.
pub open spec fn row_count_sum(links: Seq<NoteLink>, i: int, cols: int) -> int
    decreases cols,
{
    if cols <= 0 {
        0
    } else {
        row_count_sum(links, i, cols - 1) + link_count(links, i, cols - 1)
    }
}

proof fn lemma_link_count_push(links: Seq<NoteLink>, l: NoteLink, from: int, to: int)
    ensures
        link_count(links.push(l), from, to) == link_count(links, from, to) + if l.from_id == from
            && l.to_id == to {
            1int
        } else {
            0int
        },
{
    assert(links.push(l).drop_last() =~= links);
}

proof fn lemma_link_count_bounds(links: Seq<NoteLink>, from: int, to: int)
    ensures
        0 <= link_count(links, from, to) <= links.len(),
    decreases links.len(),
{
    if links.len() > 0 {
        lemma_link_count_bounds(links.drop_last(), from, to);
    }
}

proof fn lemma_out_degree_bounds(links: Seq<NoteLink>, from: int)
    ensures
        0 <= out_degree(links, from) <= links.len(),
    decreases links.len(),
{
    if links.len() > 0 {
        lemma_out_degree_bounds(links.drop_last(), from);
    }
}

proof fn lemma_row_count_sum_push(links: Seq<NoteLink>, l: NoteLink, i: int, cols: int)
    ensures
        row_count_sum(links.push(l), i, cols) == row_count_sum(links, i, cols) + if l.from_id == i
            && l.to_id < cols {
            1int
        } else {
            0int
        },
    decreases cols,
{
    if cols > 0 {
        lemma_row_count_sum_push(links, l, i, cols - 1);
        lemma_link_count_push(links, l, i, cols - 1);
    }
}

proof fn lemma_row_count_sum_zero(links: Seq<NoteLink>, i: int, cols: int)
    requires
        links.len() == 0,
    ensures
        row_count_sum(links, i, cols) == 0,
    decreases cols,
{
    if cols > 0 {
        lemma_row_count_sum_zero(links, i, cols - 1);
    }
}

proof fn lemma_row_count_sum_monotone(links: Seq<NoteLink>, i: int, c1: int, c2: int)
    requires
        c1 <= c2,
    ensures
        row_count_sum(links, i, c1) <= row_count_sum(links, i, c2),
    decreases c2 - c1,
{
    if c1 < c2 {
        lemma_row_count_sum_monotone(links, i, c1, c2 - 1);
        lemma_link_count_bounds(links, i, c2 - 1);
    }
}

/// The out-degree of a node is the row sum of its adjacency row: summing
/// `link_count(links, i, j)` over all `j` below `n` gives `out_degree(links,
/// i)`, as long as every link stays inside the vault.
pub proof fn lemma_out_degree_is_row_sum(links: Seq<NoteLink>, n: int, i: int)
    requires
        all_links_valid(links, n),
    ensures
        out_degree(links, i) == row_count_sum(links, i, n),
    decreases links.len(),
{
    if links.len() == 0 {
        lemma_row_count_sum_zero(links, i, n);
    } else {
        let pre = links.drop_last();
        let l = links.last();
        assert(link_valid(links[links.len() - 1], n));
        assert(all_links_valid(pre, n)) by {
            assert forall|k: int| 0 <= k < pre.len() implies link_valid(#[trigger] pre[k], n) by {
                assert(pre[k] == links[k]);
            }
        }
        lemma_out_degree_is_row_sum(pre, n, i);
        lemma_row_count_sum_push(pre, l, i, n);
        assert(pre.push(l) =~= links);
    }
}

proof fn lemma_no_self_loop_count(links: Seq<NoteLink>, i: int)
    requires
        forall|k: int| 0 <= k < links.len() ==> (#[trigger] links[k]).from_id != links[k].to_id,
    ensures
        link_count(links, i, i) == 0,
    decreases links.len(),
{
    if links.len() > 0 {
        let pre = links.drop_last();
        assert forall|k: int|
            0 <= k < pre.len() implies (#[trigger] pre[k]).from_id != pre[k].to_id by {
            assert(pre[k] == links[k]);
        }
        assert(links[links.len() - 1].from_id != links[links.len() - 1].to_id);
        lemma_no_self_loop_count(pre, i);
    }
}

proof fn lemma_link_count_le_out_degree(links: Seq<NoteLink>, from: int, to: int)
    ensures
        link_count(links, from, to) <= out_degree(links, from),
    decreases links.len(),
{
    if links.len() > 0 {
        lemma_link_count_le_out_degree(links.drop_last(), from, to);
    }
}

/// In a graph without self-loops, the Laplacian's diagonal holds each node's
/// out-degree, which is the row sum of that node's adjacency row.
pub proof fn lemma_laplacian_diagonal(links: Seq<NoteLink>, n: int, i: int)
    requires
        all_links_valid(links, n),
        forall|k: int| 0 <= k < links.len() ==> (#[trigger] links[k]).from_id != links[k].to_id,
    ensures
        laplacian_entry(links, i, i) == out_degree(links, i),
        out_degree(links, i) == row_count_sum(links, i, n),
{
    lemma_no_self_loop_count(links, i);
    lemma_out_degree_is_row_sum(links, n, i);
}

/// Off the diagonal, the Laplacian is the negated adjacency count.
pub proof fn lemma_laplacian_off_diagonal(links: Seq<NoteLink>, i: int, j: int)
    requires
        i != j,
    ensures
        laplacian_entry(links, i, j) == -link_count(links, i, j),
{
}

/// An isolated node (out-degree zero) has an all-zero Laplacian row.
pub proof fn lemma_laplacian_isolated_row(links: Seq<NoteLink>, i: int, j: int)
    requires
        out_degree(links, i) == 0,
    ensures
        laplacian_entry(links, i, j) == 0,
{
    lemma_link_count_le_out_degree(links, i, j);
    lemma_link_count_bounds(links, i, j);
}

/// Which (from, to, count) records a finished counting pass must hold for a
/// list of links: distinct in-range positions, each with its exact non-zero
/// count, and one record for every pair that occurs.
spec fn counts_match(counts: Seq<(usize, usize, usize)>, links: Seq<NoteLink>, n: int) -> bool {
    &&& forall|a: int, b: int|
        0 <= a < b < counts.len() ==> !((#[trigger] counts[a]).0 == (#[trigger] counts[b]).0
            && counts[a].1 == counts[b].1)
    &&& forall|a: int|
        0 <= a < counts.len() ==> (#[trigger] counts[a]).0 < n && counts[a].1 < n && counts[a].2
            >= 1 && counts[a].2 as int == link_count(links, counts[a].0 as int, counts[a].1 as int)
    &&& forall|f: int, t: int|
        0 <= f < n && 0 <= t < n && #[trigger] link_count(links, f, t) >= 1 ==> exists|a: int|
            0 <= a < counts.len() && (#[trigger] counts[a]).0 == f && counts[a].1 == t
}

/// Materialize one row of a square sparse matrix as a dense vector.
fn row_dense(matrix: &SparseMatrix, i: usize, n: usize) -> (dense: Vec<i64>)
    requires
        matrix_dim(*matrix) == n,
        i < n,
    ensures
        dense@.len() == n,
        forall|j: int|
            0 <= j < n ==> #[trigger] dense@[j] as int == entry_or_zero(*matrix, i as int, j),
{
    let row = matrix_row(matrix, i);
    let mut dense: Vec<i64> = Vec::new();
    let mut j: usize = 0;
    while j < n
        invariant
            j <= n,
            dense@.len() == j,
            forall|q: int| 0 <= q < j ==> #[trigger] dense@[q] == 0i64,
        decreases n - j,
    {
        dense.push(0);
        j = j + 1;
    }
    let mut a: usize = 0;
    while a < row.len()
        invariant
            a <= row@.len(),
            dense@.len() == n,
            i < n,
            matrix_dim(*matrix) == n,
            forall|b: int|
                0 <= b < row@.len() ==> (#[trigger] row@[b]).0 < n && entry_or_zero(
                    *matrix,
                    i as int,
                    row@[b].0 as int,
                ) == row@[b].1 as int,
            forall|c: int|
                0 <= c < n && entry_or_zero(*matrix, i as int, c) != 0 ==> exists|b: int|
                    0 <= b < row@.len() && (#[trigger] row@[b]).0 == c,
            forall|q: int|
                0 <= q < n && (exists|b: int| 0 <= b < a && (#[trigger] row@[b]).0 == q)
                    ==> #[trigger] dense@[q] as int == entry_or_zero(*matrix, i as int, q),
            forall|q: int|
                0 <= q < n && !(exists|b: int| 0 <= b < a && (#[trigger] row@[b]).0 == q)
                    ==> #[trigger] dense@[q] == 0i64,
        decreases row@.len() - a,
    {
        let (c, v) = row[a];
        dense[c] = v;
        a = a + 1;
    }
    proof {
        assert forall|j2: int|
            0 <= j2 < n implies #[trigger] dense@[j2] as int == entry_or_zero(
            *matrix,
            i as int,
            j2,
        ) by {
            if !(exists|b: int| 0 <= b < row@.len() && (#[trigger] row@[b]).0 == j2) {
                assert(entry_or_zero(*matrix, i as int, j2) == 0);
            }
        }
    }
    dense
}

/// Builds sparse graph matrices for a fixed list of note paths.
///
/// Note indices are assigned by position in the path list; the builder is
/// immutable once created.
pub struct AdjacencyMatrixBuilder {
    note_paths: Vec<String>,
}

impl AdjacencyMatrixBuilder {
    /// The note paths this builder was created with, in input order.
    pub closed spec fn paths(self) -> Seq<Seq<char>> {
        self.note_paths.deep_view()
    }

    /// Create a builder for the given notes; indices follow input order.
    pub fn new(note_paths: Vec<String>) -> (r: Self)
        ensures
            r.paths() == note_paths.deep_view(),
    {
        AdjacencyMatrixBuilder { note_paths }
    }

    /// The number of notes in the vault.
    pub fn num_notes(&self) -> (n: usize)
        ensures
            n == self.paths().len(),
    {
        self.note_paths.len()
    }

    /// The index of a note path, if the path is known.
    ///
    /// When the same path occurs more than once, the last occurrence wins:
    /// the returned index is the largest one carrying that path.
    pub fn get_note_index(&self, path: &str) -> (r: Option<usize>)
        ensures
            match r {
                Some(i) => i < self.paths().len() && self.paths()[i as int] == path@ && forall|
                    j: int,
                |
                    i < j < self.paths().len() ==> self.paths()[j] != path@,
                None => forall|j: int| 0 <= j < self.paths().len() ==> self.paths()[j] != path@,
            },
    {
        let key = String::from_str(path);
        let mut i: usize = self.note_paths.len();
        while i > 0
            invariant
                i <= self.note_paths.len(),
                key@ == path@,
                forall|j: int| i <= j < self.paths().len() ==> self.paths()[j] != path@,
            decreases i,
        {
            i = i - 1;
            if self.note_paths[i] == key {
                return Some(i);
            }
        }
        None
    }

    /// Build the sparse adjacency matrix: entry (i, j) counts the links from
    /// note i to note j. The first link that leaves the vault aborts the
    /// build with `InvalidLinkIndex`, and no matrix is returned.
    ///
    /// The link list must be small enough for every count to fit an `i64`
    /// entry, and a non-empty list needs a non-empty vault (with no notes,
    /// no largest valid index exists to report).
    pub fn build(&self, links: Vec<NoteLink>) -> (r: Result<SparseMatrix, PluginError>)
        requires
            links@.len() == 0 || self.paths().len() > 0,
            links@.len() <= i64::MAX,
        ensures
            r is Ok <==> all_links_valid(links@, self.paths().len() as int),
            r matches Ok(m) ==> matrix_dim(m) == self.paths().len() && forall|i: int, j: int|
                0 <= i < matrix_dim(m) && 0 <= j < matrix_dim(m) ==> #[trigger] entry_or_zero(
                    m,
                    i,
                    j,
                ) == link_count(links@, i, j),
            r matches Err(e) ==> exists|k: int|
                0 <= k < links@.len() && !link_valid(#[trigger] links@[k], self.paths().len() as int)
                    && (forall|j: int|
                    0 <= j < k ==> link_valid(#[trigger] links@[j], self.paths().len() as int)) && e
                    == (PluginError::InvalidLinkIndex {
                    from: links@[k].from_id,
                    to: links@[k].to_id,
                    max: (self.paths().len() - 1) as usize,
                }),
    {
        let n = self.note_paths.len();
        let mut counts: Vec<(usize, usize, usize)> = Vec::new();
        let mut idx: usize = 0;
        while idx < links.len()
            invariant
                idx <= links@.len(),
                links@.len() == 0 || n > 0,
                links@.len() <= i64::MAX,
                n == self.paths().len(),
                forall|j: int| 0 <= j < idx ==> link_valid(#[trigger] links@[j], n as int),
                counts_match(counts@, links@.subrange(0, idx as int), n as int),
            decreases links@.len() - idx,
        {
            let from = links[idx].from_id;
            let to = links[idx].to_id;
            if from >= n || to >= n {
                proof {
                    assert(!link_valid(links@[idx as int], n as int));
                }
                return Err(PluginError::InvalidLinkIndex { from, to, max: n - 1 });
            }
            let ghost prefix = links@.subrange(0, idx as int);
            let clen = counts.len();
            let mut hit: usize = clen;
            let mut ci: usize = 0;
            while ci < clen
                invariant
                    ci <= clen,
                    clen == counts@.len(),
                    hit == clen || hit < clen,
                    hit == clen ==> forall|a: int|
                        0 <= a < ci ==> !((#[trigger] counts@[a]).0 == from && counts@[a].1 == to),
                    hit < clen ==> counts@[hit as int].0 == from && counts@[hit as int].1 == to,
                decreases clen - ci,
            {
                if counts[ci].0 == from && counts[ci].1 == to {
                    hit = ci;
                }
                ci = ci + 1;
            }
            proof {
                assert(links@.subrange(0, idx as int + 1) =~= prefix.push(links@[idx as int]));
                assert forall|f: int, t: int|
                    link_count(prefix.push(links@[idx as int]), f, t) == link_count(prefix, f, t)
                        + if f == from && t == to {
                        1int
                    } else {
                        0int
                    } by {
                    lemma_link_count_push(prefix, links@[idx as int], f, t);
                }
            }
            let ghost old_counts = counts@;
            let ghost newpfx = prefix.push(links@[idx as int]);
            if hit < clen {
                let c = counts[hit].2;
                proof {
                    lemma_link_count_bounds(prefix, from as int, to as int);
                }
                counts[hit] = (from, to, c + 1);
                proof {
                    assert forall|a: int|
                        0 <= a < counts@.len() implies (#[trigger] counts@[a]).0 < n as int
                        && counts@[a].1 < n as int && counts@[a].2 >= 1 && counts@[a].2 as int
                        == link_count(newpfx, counts@[a].0 as int, counts@[a].1 as int) by {
                        if a != hit as int {
                            if a < hit as int {
                                assert(!((old_counts[a]).0 == (old_counts[hit as int]).0
                                    && old_counts[a].1 == old_counts[hit as int].1));
                            } else {
                                assert(!((old_counts[hit as int]).0 == (old_counts[a]).0
                                    && old_counts[hit as int].1 == old_counts[a].1));
                            }
                        }
                    }
                    assert forall|f: int, t: int|
                        0 <= f < n as int && 0 <= t < n as int && #[trigger] link_count(
                            newpfx,
                            f,
                            t,
                        ) >= 1 implies exists|a: int|
                        0 <= a < counts@.len() && (#[trigger] counts@[a]).0 == f && counts@[a].1
                            == t by {
                        if f == from as int && t == to as int {
                            assert(counts@[hit as int].0 == f && counts@[hit as int].1 == t);
                        } else {
                            assert(link_count(prefix, f, t) >= 1);
                            let a0 = choose|a: int|
                                0 <= a < old_counts.len() && (#[trigger] old_counts[a]).0 == f
                                    && old_counts[a].1 == t;
                            assert(counts@[a0].0 == f && counts@[a0].1 == t);
                        }
                    }
                }
            } else {
                counts.push((from, to, 1));
                proof {
                    lemma_link_count_bounds(prefix, from as int, to as int);
                    if link_count(prefix, from as int, to as int) >= 1 {
                        let a0 = choose|a: int|
                            0 <= a < old_counts.len() && (#[trigger] old_counts[a]).0
                                == from as int && old_counts[a].1 == to as int;
                        assert(false);
                    }
                    assert forall|f: int, t: int|
                        0 <= f < n as int && 0 <= t < n as int && #[trigger] link_count(
                            newpfx,
                            f,
                            t,
                        ) >= 1 implies exists|a: int|
                        0 <= a < counts@.len() && (#[trigger] counts@[a]).0 == f && counts@[a].1
                            == t by {
                        if f == from as int && t == to as int {
                            assert(counts@[clen as int].0 == f && counts@[clen as int].1 == t);
                        } else {
                            assert(link_count(prefix, f, t) >= 1);
                            let a0 = choose|a: int|
                                0 <= a < old_counts.len() && (#[trigger] old_counts[a]).0 == f
                                    && old_counts[a].1 == t;
                            assert(counts@[a0].0 == f && counts@[a0].1 == t);
                        }
                    }
                }
            }
            idx = idx + 1;
        }
        proof {
            assert(links@.subrange(0, links@.len() as int) =~= links@);
        }
        let mut tri = tri_new(n);
        let mut p: usize = 0;
        while p < counts.len()
            invariant
                p <= counts@.len(),
                n == self.paths().len(),
                links@.len() <= i64::MAX,
                tri_dim(tri) == n as int,
                counts_match(counts@, links@, n as int),
                forall|f: int, t: int|
                    #[trigger] tri_entries(tri).dom().contains((f, t)) <==> exists|a: int|
                        0 <= a < p && (#[trigger] counts@[a]).0 == f && counts@[a].1 == t,
                forall|a: int|
                    0 <= a < p ==> tri_entries(tri)[
                        ((#[trigger] counts@[a]).0 as int, counts@[a].1 as int)] == counts@[a].2 as int,
            decreases counts@.len() - p,
        {
            let (f, t, c) = counts[p];
            proof {
                lemma_link_count_bounds(links@, f as int, t as int);
                if tri_entries(tri).dom().contains((f as int, t as int)) {
                    let a = choose|a: int|
                        0 <= a < p && (#[trigger] counts@[a]).0 == f as int && counts@[a].1
                            == t as int;
                    assert(false);
                }
            }
            tri_add(&mut tri, f, t, c as i64);
            p = p + 1;
        }
        let m = tri_to_csr(&tri);
        proof {
            assert forall|i: int, j: int|
                0 <= i < matrix_dim(m) && 0 <= j < matrix_dim(m) implies #[trigger] entry_or_zero(
                m,
                i,
                j,
            ) == link_count(links@, i, j) by {
                lemma_link_count_bounds(links@, i, j);
                if link_count(links@, i, j) >= 1 {
                    let a = choose|a: int|
                        0 <= a < counts@.len() && (#[trigger] counts@[a]).0 == i && counts@[a].1
                            == j;
                    assert(tri_entries(tri).dom().contains((i, j)));
                } else {
                    if tri_entries(tri).dom().contains((i, j)) {
                        let a = choose|a: int|
                            0 <= a < counts@.len() && (#[trigger] counts@[a]).0 == i && counts@[a].1
                                == j;
                        assert(counts@[a].2 as int == link_count(links@, i, j));
                        assert(false);
                    }
                }
            }
        }
        Ok(m)
    }

    /// Build the graph Laplacian L = D - A, where D is the diagonal matrix
    /// of out-degrees and A the adjacency matrix of the same links. Link
    /// validation behaves exactly as in `build`.
    pub fn build_laplacian(&self, links: Vec<NoteLink>) -> (r: Result<SparseMatrix, PluginError>)
        requires
            links@.len() == 0 || self.paths().len() > 0,
            links@.len() <= i64::MAX,
        ensures
            r is Ok <==> all_links_valid(links@, self.paths().len() as int),
            r matches Ok(m) ==> matrix_dim(m) == self.paths().len() && forall|i: int, j: int|
                0 <= i < matrix_dim(m) && 0 <= j < matrix_dim(m) ==> #[trigger] entry_or_zero(
                    m,
                    i,
                    j,
                ) == laplacian_entry(links@, i, j),
            r matches Err(e) ==> exists|k: int|
                0 <= k < links@.len() && !link_valid(#[trigger] links@[k], self.paths().len() as int)
                    && (forall|j: int|
                    0 <= j < k ==> link_valid(#[trigger] links@[j], self.paths().len() as int)) && e
                    == (PluginError::InvalidLinkIndex {
                    from: links@[k].from_id,
                    to: links@[k].to_id,
                    max: (self.paths().len() - 1) as usize,
                }),
    {
        let ghost lks = links@;
        let n = self.note_paths.len();
        let adjacency = match self.build(links) {
            Ok(m) => m,
            Err(e) => {
                return Err(e);
            },
        };
        let mut deg_tri = tri_new(n);
        let mut i: usize = 0;
        while i < n
            invariant
                i <= n,
                n == self.paths().len(),
                lks.len() <= i64::MAX,
                all_links_valid(lks, n as int),
                matrix_dim(adjacency) == n,
                forall|p: int, q: int|
                    0 <= p < n && 0 <= q < n ==> #[trigger] entry_or_zero(adjacency, p, q)
                        == link_count(lks, p, q),
                tri_dim(deg_tri) == n as int,
                forall|key: (int, int)|
                    #[trigger] tri_entries(deg_tri).dom().contains(key) <==> (key.0 == key.1 && 0
                        <= key.0 < i && out_degree(lks, key.0) > 0),
                forall|p: int|
                    0 <= p < i && #[trigger] out_degree(lks, p) > 0 ==> tri_entries(deg_tri)[
                        (p, p)] == out_degree(lks, p),
            decreases n - i,
        {
            let dense = row_dense(&adjacency, i, n);
            let mut s: i64 = 0;
            let mut j: usize = 0;
            proof {
                lemma_out_degree_is_row_sum(lks, n as int, i as int);
                lemma_out_degree_bounds(lks, i as int);
            }
            while j < n
                invariant
                    j <= n,
                    i < n,
                    n == self.paths().len(),
                    lks.len() <= i64::MAX,
                    dense@.len() == n,
                    matrix_dim(adjacency) == n,
                    forall|q: int|
                        0 <= q < n ==> #[trigger] dense@[q] as int == entry_or_zero(
                            adjacency,
                            i as int,
                            q,
                        ),
                    forall|p: int, q: int|
                        0 <= p < n && 0 <= q < n ==> #[trigger] entry_or_zero(adjacency, p, q)
                            == link_count(lks, p, q),
                    out_degree(lks, i as int) == row_count_sum(lks, i as int, n as int),
                    0 <= out_degree(lks, i as int) <= lks.len(),
                    s as int == row_count_sum(lks, i as int, j as int),
                decreases n - j,
            {
                proof {
                    lemma_link_count_bounds(lks, i as int, j as int);
                    lemma_row_count_sum_monotone(lks, i as int, 0, j as int + 1);
                    lemma_row_count_sum_monotone(lks, i as int, j as int + 1, n as int);
                }
                s = s + dense[j];
                j = j + 1;
            }
            if s > 0 {
                tri_add(&mut deg_tri, i, i, s);
            }
            i = i + 1;
        }
        let degree = tri_to_csr(&deg_tri);
        proof {
            assert forall|p: int, q: int|
                0 <= p < n && 0 <= q < n ==> i64::MIN <= #[trigger] entry_or_zero(degree, p, q)
                    - entry_or_zero(adjacency, p, q) <= i64::MAX by {
                lemma_link_count_bounds(lks, p, q);
                lemma_out_degree_bounds(lks, p);
            }
        }
        let lap = matrix_sub(&degree, &adjacency);
        proof {
            assert forall|p: int, q: int|
                0 <= p < n && 0 <= q < n implies #[trigger] entry_or_zero(lap, p, q)
                == laplacian_entry(lks, p, q) by {
                lemma_link_count_bounds(lks, p, q);
                lemma_out_degree_bounds(lks, p);
            }
        }
        Ok(lap)
    }

    /// Materialize each sparse row as a dense vector of length `num_notes`:
    /// the bridge from sparse storage to the dense vectors that reduction and
    /// clustering consume. The matrix must come from this builder's vault
    /// (its dimension equals the number of notes).
    pub fn matrix_to_vectors(&self, matrix: &SparseMatrix) -> (r: Vec<Vec<i64>>)
        requires
            matrix_dim(*matrix) == self.paths().len(),
        ensures
            r@.len() == self.paths().len(),
            forall|i: int| 0 <= i < r@.len() ==> (#[trigger] r@[i])@.len() == self.paths().len(),
            forall|i: int, j: int|
                0 <= i < r@.len() && 0 <= j < r@.len() ==> #[trigger] r@[i]@[j] as int
                    == entry_or_zero(*matrix, i, j),
    {
        let n = self.note_paths.len();
        let mut out: Vec<Vec<i64>> = Vec::new();
        let mut i: usize = 0;
        while i < n
            invariant
                i <= n,
                n == self.paths().len(),
                matrix_dim(*matrix) == n,
                out@.len() == i,
                forall|p: int| 0 <= p < i ==> (#[trigger] out@[p])@.len() == n,
                forall|p: int, q: int|
                    0 <= p < i && 0 <= q < n ==> #[trigger] out@[p]@[q] as int == entry_or_zero(
                        *matrix,
                        p,
                        q,
                    ),
            decreases n - i,
        {
            let dense = row_dense(matrix, i, n);
            out.push(dense);
            i = i + 1;
        }
        out
    }
}

} // verus!
