//! The model of a whole run: how the basis grows and what the output matrix
//! holds after each dispatch.
//!
//! The resolvent step and the inner product are arithmetic on real numbers and
//! are done by the host and by the device. The model takes both as arbitrary
//! functions, so everything proved here holds for whichever step rule and
//! whichever overlap formula are plugged in.

use vstd::prelude::*;
use crate::graph::{cell_index, column_graph, lemma_cell_index_bounds, MAX_DIM};
use crate::kernel::{evaluate, lemma_dispatch_writes_column};
use crate::params::{Complex32, SymbolicParams};

verus! {

/// The basis at the time column `k` is dispatched: the initial vector, then for
/// each `j` in `1..=k` the vector derived from vector `j - 1` with shift
/// `j - 1`.
pub open spec fn basis_model(
    advance: spec_fn(SymbolicParams, u32) -> SymbolicParams,
    initial: SymbolicParams,
    shifts: Seq<u32>,
    k: nat,
) -> Seq<SymbolicParams>
    decreases k,
{
    if k == 0 {
        seq![initial]
    } else {
        let earlier = basis_model(advance, initial, shifts, (k - 1) as nat);
        earlier.push(advance(earlier.last(), shifts[k - 1]))
    }
}

/// The zero complex value.
pub open spec fn zero() -> Complex32 {
    Complex32 { re: 0, im: 0 }
}

/// The matrix of dimension `dim` before the first dispatch.
pub open spec fn zero_matrix(dim: int) -> Seq<Complex32> {
    Seq::new((dim * dim) as nat, |cell: int| zero())
}

/// The output matrix after the first `cols` columns have been dispatched, for
/// a run with as many iterations as there are shifts.
pub open spec fn matrix_model(
    advance: spec_fn(SymbolicParams, u32) -> SymbolicParams,
    overlap: spec_fn(SymbolicParams, SymbolicParams) -> Complex32,
    initial: SymbolicParams,
    shifts: Seq<u32>,
    cols: nat,
) -> Seq<Complex32>
    decreases cols,
{
    if cols == 0 {
        zero_matrix(shifts.len() as int)
    } else {
        evaluate(
            overlap,
            basis_model(advance, initial, shifts, (cols - 1) as nat),
            column_graph(cols - 1, shifts.len() as int),
            matrix_model(advance, overlap, initial, shifts, (cols - 1) as nat),
        )
    }
}

/// The output matrix that a run hands to readback.
pub open spec fn run_model(
    advance: spec_fn(SymbolicParams, u32) -> SymbolicParams,
    overlap: spec_fn(SymbolicParams, SymbolicParams) -> Complex32,
    initial: SymbolicParams,
    shifts: Seq<u32>,
) -> Seq<Complex32> {
    matrix_model(advance, overlap, initial, shifts, shifts.len())
}

/// The basis is append-only and grows by one vector per iteration: at column
/// `k` it has `k + 1` vectors, and each of them is the vector that was newest
/// at its own column.
pub proof fn lemma_basis_grows(
    advance: spec_fn(SymbolicParams, u32) -> SymbolicParams,
    initial: SymbolicParams,
    shifts: Seq<u32>,
    k: nat,
)
    ensures
        basis_model(advance, initial, shifts, k).len() == k + 1,
        basis_model(advance, initial, shifts, k)[0] == initial,
        forall|j: nat|
            j <= k ==> basis_model(advance, initial, shifts, k)[j as int] == (#[trigger] basis_model(
                advance,
                initial,
                shifts,
                j,
            )).last(),
    decreases k,
{
    if k > 0 {
        lemma_basis_grows(advance, initial, shifts, (k - 1) as nat);
        let earlier = basis_model(advance, initial, shifts, (k - 1) as nat);
        let now = basis_model(advance, initial, shifts, k);
        assert forall|j: nat| j <= k implies now[j as int] == (#[trigger] basis_model(
            advance,
            initial,
            shifts,
            j,
        )).last() by {
            if j < k {
                assert(now[j as int] == earlier[j as int]);
            }
        }
    }
}

/// A run of `m` shifts ends with exactly `m` basis vectors: the initial one
/// and `m - 1` derived ones.
pub proof fn lemma_basis_count(
    advance: spec_fn(SymbolicParams, u32) -> SymbolicParams,
    initial: SymbolicParams,
    shifts: Seq<u32>,
)
    requires
        shifts.len() >= 1,
    ensures
        basis_model(advance, initial, shifts, (shifts.len() - 1) as nat).len() == shifts.len(),
{
    lemma_basis_grows(advance, initial, shifts, (shifts.len() - 1) as nat);
}

/// The basis at column `k` depends on the first `k` shifts only.
pub proof fn lemma_basis_depends_on_prefix(
    advance: spec_fn(SymbolicParams, u32) -> SymbolicParams,
    initial: SymbolicParams,
    shifts: Seq<u32>,
    others: Seq<u32>,
    k: nat,
)
    requires
        k <= shifts.len(),
        k <= others.len(),
        forall|j: int| 0 <= j < k ==> shifts[j] == others[j],
    ensures
        basis_model(advance, initial, shifts, k) == basis_model(advance, initial, others, k),
    decreases k,
{
    if k > 0 {
        lemma_basis_depends_on_prefix(advance, initial, shifts, others, (k - 1) as nat);
    }
}

/// A step rule that keeps records well formed keeps the whole basis well
/// formed: if the initial vector is of a known family with a strictly positive
/// width, so is every vector derived from it.
pub proof fn lemma_basis_stays_well_formed(
    advance: spec_fn(SymbolicParams, u32) -> SymbolicParams,
    initial: SymbolicParams,
    shifts: Seq<u32>,
    k: nat,
)
    requires
        initial.well_formed(),
        forall|prev: SymbolicParams, shift: u32|
            prev.well_formed() ==> (#[trigger] advance(prev, shift)).well_formed(),
    ensures
        forall|j: int|
            0 <= j <= k ==> (#[trigger] basis_model(advance, initial, shifts, k)[j]).well_formed(),
    decreases k,
{
    lemma_basis_grows(advance, initial, shifts, k);
    if k > 0 {
        lemma_basis_stays_well_formed(advance, initial, shifts, (k - 1) as nat);
        lemma_basis_grows(advance, initial, shifts, (k - 1) as nat);
        let earlier = basis_model(advance, initial, shifts, (k - 1) as nat);
        assert(earlier[k - 1].well_formed());
        assert forall|j: int| 0 <= j <= k implies (#[trigger] basis_model(
            advance,
            initial,
            shifts,
            k,
        )[j]).well_formed() by {
            if j < k {
                assert(basis_model(advance, initial, shifts, k)[j] == earlier[j]);
            }
        }
    }
}

/// What the matrix holds after `cols` dispatches. It has `m * m` cells for `m`
/// shifts. Cell (`row`, `col`) holds the inner product of basis vector `row`
/// with basis vector `col` if column `col` has been dispatched and `row` is not
/// below the diagonal, and zero otherwise.
pub proof fn lemma_matrix_entries(
    advance: spec_fn(SymbolicParams, u32) -> SymbolicParams,
    overlap: spec_fn(SymbolicParams, SymbolicParams) -> Complex32,
    initial: SymbolicParams,
    shifts: Seq<u32>,
    cols: nat,
)
    requires
        cols <= shifts.len() <= MAX_DIM,
    ensures
        matrix_model(advance, overlap, initial, shifts, cols).len() == shifts.len() * shifts.len(),
        forall|row: int, col: int|
            0 <= row < shifts.len() && 0 <= col < shifts.len() ==> matrix_model(
                advance,
                overlap,
                initial,
                shifts,
                cols,
            )[#[trigger] cell_index(row, col, shifts.len() as int)] == if col < cols && row <= col {
                let basis = basis_model(advance, initial, shifts, col as nat);
                overlap(basis[row], basis[col])
            } else {
                zero()
            },
    decreases cols,
{
    let m = shifts.len() as int;
    let now = matrix_model(advance, overlap, initial, shifts, cols);
    if cols == 0 {
        assert forall|row: int, col: int| 0 <= row < m && 0 <= col < m implies now[#[trigger] cell_index(
            row,
            col,
            m,
        )] == zero() by {
            lemma_cell_index_bounds(row, col, m);
        }
    } else {
        let k = (cols - 1) as nat;
        let before = matrix_model(advance, overlap, initial, shifts, k);
        let basis = basis_model(advance, initial, shifts, k);
        lemma_matrix_entries(advance, overlap, initial, shifts, k);
        lemma_basis_grows(advance, initial, shifts, k);
        lemma_dispatch_writes_column(overlap, basis, k as int, m, before);
        assert forall|row: int, col: int| 0 <= row < m && 0 <= col < m implies now[#[trigger] cell_index(
            row,
            col,
            m,
        )] == if col < cols && row <= col {
            let b = basis_model(advance, initial, shifts, col as nat);
            overlap(b[row], b[col])
        } else {
            zero()
        } by {
            if col == k && row <= k {
                assert(now[cell_index(row, k as int, m)] == overlap(basis[row], basis[k as int]));
            } else {
                assert(now[cell_index(row, col, m)] == before[cell_index(row, col, m)]);
            }
        }
    }
}

/// The matrix of a run of `m` shifts has exactly `m * m` complex entries.
pub proof fn lemma_matrix_size(
    advance: spec_fn(SymbolicParams, u32) -> SymbolicParams,
    overlap: spec_fn(SymbolicParams, SymbolicParams) -> Complex32,
    initial: SymbolicParams,
    shifts: Seq<u32>,
)
    requires
        shifts.len() <= MAX_DIM,
    ensures
        run_model(advance, overlap, initial, shifts).len() == shifts.len() * shifts.len(),
{
    lemma_matrix_entries(advance, overlap, initial, shifts, shifts.len());
}

/// A dispatch never changes a column that an earlier dispatch wrote: once
/// column `col` is dispatched, its cells keep their values through every later
/// iteration.
pub proof fn lemma_columns_are_final(
    advance: spec_fn(SymbolicParams, u32) -> SymbolicParams,
    overlap: spec_fn(SymbolicParams, SymbolicParams) -> Complex32,
    initial: SymbolicParams,
    shifts: Seq<u32>,
    cols: nat,
    later: nat,
    row: int,
    col: int,
)
    requires
        cols <= later <= shifts.len() <= MAX_DIM,
        0 <= row < shifts.len(),
        0 <= col < cols,
    ensures
        matrix_model(advance, overlap, initial, shifts, later)[cell_index(
            row,
            col,
            shifts.len() as int,
        )] == matrix_model(advance, overlap, initial, shifts, cols)[cell_index(
            row,
            col,
            shifts.len() as int,
        )],
{
    lemma_matrix_entries(advance, overlap, initial, shifts, cols);
    lemma_matrix_entries(advance, overlap, initial, shifts, later);
}

/// Prefix consistency. Running again with only the first `n` shifts gives, in
/// every row and column below `n`, the entry that the longer run has there:
/// column `k` of the matrix is determined by basis vectors `0..=k` alone.
pub proof fn lemma_prefix_consistency(
    advance: spec_fn(SymbolicParams, u32) -> SymbolicParams,
    overlap: spec_fn(SymbolicParams, SymbolicParams) -> Complex32,
    initial: SymbolicParams,
    shifts: Seq<u32>,
    n: nat,
)
    requires
        1 <= n <= shifts.len() <= MAX_DIM,
    ensures
        forall|row: int, col: int|
            0 <= row < n && 0 <= col < n ==> run_model(advance, overlap, initial, shifts.take(n as int))[
            #[trigger] cell_index(row, col, n as int)] == run_model(
                advance,
                overlap,
                initial,
                shifts,
            )[cell_index(row, col, shifts.len() as int)],
{
    let short = shifts.take(n as int);
    lemma_matrix_entries(advance, overlap, initial, short, n);
    lemma_matrix_entries(advance, overlap, initial, shifts, shifts.len());
    assert forall|row: int, col: int| 0 <= row < n && 0 <= col < n implies run_model(
        advance,
        overlap,
        initial,
        short,
    )[#[trigger] cell_index(row, col, n as int)] == run_model(advance, overlap, initial, shifts)[cell_index(
        row,
        col,
        shifts.len() as int,
    )] by {
        lemma_basis_depends_on_prefix(advance, initial, short, shifts, col as nat);
        let there = cell_index(row, col, shifts.len() as int);
        assert(run_model(advance, overlap, initial, shifts)[there] == if row <= col {
            let b = basis_model(advance, initial, shifts, col as nat);
            overlap(b[row], b[col])
        } else {
            zero()
        });
    }
}

} // verus!
