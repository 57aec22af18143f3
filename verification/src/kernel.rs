//! What a conforming evaluator does with a graph.
//!
//! The evaluator visits every agent position once, in no particular order. A
//! state vector is only there to be pointed at. A scanner resolves its
//! principal port to a state vector, takes the inner product of the record in
//! its own parameter slot with the record in the state vector's slot, and
//! writes it to the cell that its auxiliary port names. The other kinds do
//! nothing. The inner product itself is the evaluator's business: here it is
//! any function of two records.

use vstd::prelude::*;
use crate::agent::Agent;
use crate::graph::{
    cell_index, column_graph, graph_well_formed, lemma_cell_index_bounds,
    lemma_cell_index_injective, lemma_column_graph_well_formed, MAX_DIM,
};
use crate::params::{Complex32, SymbolicParams};

verus! {

/// The agent at position `p` is a scanner that writes `cell`.
pub open spec fn writes_cell(agents: Seq<Agent>, p: int, cell: int) -> bool {
    0 <= p < agents.len() && agents[p].is_scanner() && agents[p].aux_port == cell
}

/// The value that the scanner at position `p` computes.
pub open spec fn scanner_result(
    overlap: spec_fn(SymbolicParams, SymbolicParams) -> Complex32,
    params: Seq<SymbolicParams>,
    agents: Seq<Agent>,
    p: int,
) -> Complex32 {
    let a = agents[p];
    let target = agents[a.principal_port as int];
    overlap(params[a.param_index as int], params[target.param_index as int])
}

/// The matrix after the evaluator has visited position `p` alone.
pub open spec fn visit(
    overlap: spec_fn(SymbolicParams, SymbolicParams) -> Complex32,
    params: Seq<SymbolicParams>,
    agents: Seq<Agent>,
    p: int,
    out: Seq<Complex32>,
) -> Seq<Complex32> {
    if agents[p].is_scanner() && agents[p].aux_port < out.len() {
        out.update(agents[p].aux_port as int, scanner_result(overlap, params, agents, p))
    } else {
        out
    }
}

/// The matrix after the evaluator has visited positions `0..n` one by one.
pub open spec fn visit_in_order(
    overlap: spec_fn(SymbolicParams, SymbolicParams) -> Complex32,
    params: Seq<SymbolicParams>,
    agents: Seq<Agent>,
    n: nat,
    out: Seq<Complex32>,
) -> Seq<Complex32>
    decreases n,
{
    if n == 0 {
        out
    } else {
        visit(overlap, params, agents, n - 1, visit_in_order(overlap, params, agents, (n - 1) as nat, out))
    }
}

/// The matrix after one dispatch of a graph: a cell that some scanner writes
/// holds that scanner's value, every other cell is as it was.
pub open spec fn evaluate(
    overlap: spec_fn(SymbolicParams, SymbolicParams) -> Complex32,
    params: Seq<SymbolicParams>,
    agents: Seq<Agent>,
    out: Seq<Complex32>,
) -> Seq<Complex32> {
    Seq::new(
        out.len(),
        |cell: int|
            if exists|p: int| writes_cell(agents, p, cell) {
                scanner_result(overlap, params, agents, choose|p: int| writes_cell(agents, p, cell))
            } else {
                out[cell]
            },
    )
}

/// Visits of two different positions of a well-formed graph can be swapped:
/// no agent depends on what another one wrote in the same dispatch.
pub proof fn lemma_visits_commute(
    overlap: spec_fn(SymbolicParams, SymbolicParams) -> Complex32,
    params: Seq<SymbolicParams>,
    agents: Seq<Agent>,
    p: int,
    q: int,
    out: Seq<Complex32>,
)
    requires
        graph_well_formed(agents, params.len() as int, out.len() as int),
        0 <= p < agents.len(),
        0 <= q < agents.len(),
        p != q,
    ensures
        visit(overlap, params, agents, p, visit(overlap, params, agents, q, out)) == visit(
            overlap,
            params,
            agents,
            q,
            visit(overlap, params, agents, p, out),
        ),
{
    let a = agents[p];
    let b = agents[q];
    if a.is_scanner() && b.is_scanner() {
        assert(a.aux_port != b.aux_port);
    }
    assert(visit(overlap, params, agents, p, visit(overlap, params, agents, q, out)) =~= visit(
        overlap,
        params,
        agents,
        q,
        visit(overlap, params, agents, p, out),
    ));
}

/// For a well-formed graph, visiting the positions one by one leaves the
/// matrix that `evaluate` describes.
pub proof fn lemma_in_order_is_evaluate(
    overlap: spec_fn(SymbolicParams, SymbolicParams) -> Complex32,
    params: Seq<SymbolicParams>,
    agents: Seq<Agent>,
    out: Seq<Complex32>,
)
    requires
        graph_well_formed(agents, params.len() as int, out.len() as int),
    ensures
        visit_in_order(overlap, params, agents, agents.len(), out) == evaluate(
            overlap,
            params,
            agents,
            out,
        ),
{
    lemma_in_order_prefix(overlap, params, agents, agents.len(), out);
    let done = visit_in_order(overlap, params, agents, agents.len(), out);
    let all = evaluate(overlap, params, agents, out);
    assert forall|cell: int| 0 <= cell < out.len() implies done[cell] == all[cell] by {
        if exists|p: int| writes_cell(agents, p, cell) {
            let p = choose|p: int| writes_cell(agents, p, cell);
            assert(writes_cell(agents, p, cell));
        }
    }
    assert(done =~= all);
}

/// After the first `n` positions of a well-formed graph, a cell holds the value
/// of the scanner among them that writes it, if there is one, and is unchanged
/// otherwise.
proof fn lemma_in_order_prefix(
    overlap: spec_fn(SymbolicParams, SymbolicParams) -> Complex32,
    params: Seq<SymbolicParams>,
    agents: Seq<Agent>,
    n: nat,
    out: Seq<Complex32>,
)
    requires
        graph_well_formed(agents, params.len() as int, out.len() as int),
        n <= agents.len(),
    ensures
        visit_in_order(overlap, params, agents, n, out).len() == out.len(),
        forall|cell: int, p: int|
            0 <= cell < out.len() && p < n && #[trigger] writes_cell(agents, p, cell)
                ==> visit_in_order(overlap, params, agents, n, out)[cell] == scanner_result(
                overlap,
                params,
                agents,
                p,
            ),
        forall|cell: int|
            0 <= cell < out.len() && (forall|p: int| p < n ==> !writes_cell(agents, p, cell))
                ==> #[trigger] visit_in_order(overlap, params, agents, n, out)[cell] == out[cell],
    decreases n,
{
    if n > 0 {
        let before = visit_in_order(overlap, params, agents, (n - 1) as nat, out);
        let after = visit_in_order(overlap, params, agents, n, out);
        lemma_in_order_prefix(overlap, params, agents, (n - 1) as nat, out);
        assert(after == visit(overlap, params, agents, n - 1, before));
        assert forall|cell: int, p: int|
            0 <= cell < out.len() && p < n && #[trigger] writes_cell(
                agents,
                p,
                cell,
            ) implies after[cell] == scanner_result(overlap, params, agents, p) by {
            if p < n - 1 {
                if agents[n - 1].is_scanner() {
                    assert(agents[p].aux_port != agents[n - 1].aux_port);
                }
            }
        }
        assert forall|cell: int|
            0 <= cell < out.len() && (forall|p: int|
                p < n ==> !writes_cell(agents, p, cell)) implies #[trigger] after[cell]
            == out[cell] by {
            assert(!writes_cell(agents, n - 1, cell));
            assert(forall|p: int| p < n - 1 ==> !writes_cell(agents, p, cell));
        }
    }
}

/// The column-write property. One dispatch of the graph of iteration `k` puts
/// the inner product of basis vector `i` with basis vector `k` into cell
/// (`i`, `k`) for every `i` in `0..=k`, and leaves every other cell of the
/// matrix untouched, the earlier columns among them.
pub proof fn lemma_dispatch_writes_column(
    overlap: spec_fn(SymbolicParams, SymbolicParams) -> Complex32,
    basis: Seq<SymbolicParams>,
    k: int,
    dim: int,
    out: Seq<Complex32>,
)
    requires
        0 <= k < dim <= MAX_DIM,
        basis.len() == k + 1,
        out.len() == dim * dim,
    ensures
        evaluate(overlap, basis, column_graph(k, dim), out).len() == out.len(),
        forall|i: int|
            0 <= i <= k ==> evaluate(overlap, basis, column_graph(k, dim), out)[#[trigger] cell_index(
                i,
                k,
                dim,
            )] == overlap(basis[i], basis[k]),
        forall|row: int, col: int|
            0 <= row < dim && 0 <= col < dim && !(col == k && row <= k) ==> evaluate(
                overlap,
                basis,
                column_graph(k, dim),
                out,
            )[#[trigger] cell_index(row, col, dim)] == out[cell_index(row, col, dim)],
{
    let g = column_graph(k, dim);
    let after = evaluate(overlap, basis, g, out);
    lemma_column_graph_well_formed(k, dim);
    assert forall|i: int| 0 <= i <= k implies after[#[trigger] cell_index(i, k, dim)] == overlap(
        basis[i],
        basis[k],
    ) by {
        let cell = cell_index(i, k, dim);
        lemma_cell_index_bounds(i, k, dim);
        assert(writes_cell(g, k + 1 + i, cell));
        let p = choose|p: int| writes_cell(g, p, cell);
        assert(writes_cell(g, p, cell));
        lemma_cell_index_bounds(p - (k + 1), k, dim);
        lemma_cell_index_injective(p - (k + 1), k, i, k, dim);
    }
    assert forall|row: int, col: int|
        0 <= row < dim && 0 <= col < dim && !(col == k && row <= k) implies after[#[trigger] cell_index(
        row,
        col,
        dim,
    )] == out[cell_index(row, col, dim)] by {
        let cell = cell_index(row, col, dim);
        lemma_cell_index_bounds(row, col, dim);
        if exists|p: int| writes_cell(g, p, cell) {
            let p = choose|p: int| writes_cell(g, p, cell);
            assert(writes_cell(g, p, cell));
            lemma_cell_index_bounds(p - (k + 1), k, dim);
            lemma_cell_index_injective(p - (k + 1), k, row, col, dim);
        }
    }
}

} // verus!
