//! The agent graph builder.
//!
//! Each iteration gets a fresh graph of two segments in a fixed order: one
//! state vector per basis vector, then one scanner per basis vector. A scanner
//! asks for the inner product of its own basis vector with the newest one and
//! names the matrix cell that receives it. The order matters: scanners point at
//! state vectors by position, and the positions `0..basis.len()` are theirs.

use vstd::prelude::*;
use crate::agent::{Agent, AgentKind};
use crate::params::SymbolicParams;

verus! {

/// Largest dimension whose matrix cells can all be named by an agent port.
pub const MAX_DIM: usize = 65536;

/// The state vector agent that stands for basis vector `i`.
pub open spec fn state_vector_agent(i: int) -> Agent {
    Agent {
        kind: AgentKind::StateVector.spec_code(),
        principal_port: 0,
        aux_port: 0,
        param_index: i as u32,
        shift_val: 0,
    }
}

/// Position of cell (`row`, `col`) in a row-major matrix of dimension `dim`.
pub open spec fn cell_index(row: int, col: int, dim: int) -> int {
    row * dim + col
}

/// The scanner that asks for the inner product of basis vector `i` with basis
/// vector `k` and writes it to cell (`i`, `k`) of a matrix of dimension `dim`.
pub open spec fn scanner_agent(i: int, k: int, dim: int) -> Agent {
    Agent {
        kind: AgentKind::MetricScanner.spec_code(),
        principal_port: k as u32,
        aux_port: cell_index(i, k, dim) as u32,
        param_index: i as u32,
        shift_val: 0,
    }
}

/// The graph of iteration `k`: state vectors `0..=k`, then scanners `0..=k`.
pub open spec fn column_graph(k: int, dim: int) -> Seq<Agent> {
    Seq::new(
        (2 * (k + 1)) as nat,
        |p: int|
            if p <= k {
                state_vector_agent(p)
            } else {
                scanner_agent(p - (k + 1), k, dim)
            },
    )
}

/// What the evaluator needs of the agent at position `p`: a state vector names
/// a parameter slot that exists; a scanner names one too, points at a state
/// vector of the same graph, and writes a cell that exists. The other kinds are
/// not evaluated and need nothing.
pub open spec fn agent_resolves(agents: Seq<Agent>, p: int, n_params: int, n_cells: int) -> bool {
    let a = agents[p];
    &&& a.is_state_vector() ==> a.param_index < n_params
    &&& a.is_scanner() ==> {
        &&& a.param_index < n_params
        &&& a.principal_port < agents.len()
        &&& agents[a.principal_port as int].is_state_vector()
        &&& a.aux_port < n_cells
    }
}

/// Every agent resolves, and no two scanners write the same cell.
pub open spec fn graph_well_formed(agents: Seq<Agent>, n_params: int, n_cells: int) -> bool {
    &&& forall|p: int|
        0 <= p < agents.len() ==> #[trigger] agent_resolves(agents, p, n_params, n_cells)
    &&& forall|p: int, q: int|
        0 <= p < agents.len() && 0 <= q < agents.len() && p != q && (#[trigger] agents[p]).is_scanner()
            && (#[trigger] agents[q]).is_scanner() ==> agents[p].aux_port != agents[q].aux_port
}

/// Cells of a matrix of dimension `dim` are numbered without gaps or clashes:
/// a cell inside the matrix has a number below `dim * dim`, and two cells of
/// one column in different rows have different numbers.
pub proof fn lemma_cell_index_bounds(row: int, col: int, dim: int)
    requires
        0 <= row < dim,
        0 <= col < dim,
    ensures
        0 <= cell_index(row, col, dim) < dim * dim,
        dim <= MAX_DIM ==> cell_index(row, col, dim) <= u32::MAX,
{
    assert(row * dim + col < dim * dim && 0 <= row * dim) by (nonlinear_arith)
        requires
            0 <= row < dim,
            0 <= col < dim,
    ;
    if dim <= MAX_DIM {
        assert(dim * dim <= 65536 * 65536) by (nonlinear_arith)
            requires
                0 <= dim <= 65536,
        ;
    }
}

/// A cell's number determines its row and its column.
pub proof fn lemma_cell_index_injective(r1: int, c1: int, r2: int, c2: int, dim: int)
    requires
        0 <= r1,
        0 <= r2,
        0 <= c1 < dim,
        0 <= c2 < dim,
        cell_index(r1, c1, dim) == cell_index(r2, c2, dim),
    ensures
        r1 == r2,
        c1 == c2,
{
    assert(r1 == r2) by (nonlinear_arith)
        requires
            0 <= r1,
            0 <= r2,
            0 <= c1 < dim,
            0 <= c2 < dim,
            r1 * dim + c1 == r2 * dim + c2,
    ;
}

/// The graph of any iteration inside the dimension limit is well formed for a
/// basis of `k + 1` vectors and a matrix of `dim * dim` cells: out-of-range
/// ports are excluded by construction.
pub proof fn lemma_column_graph_well_formed(k: int, dim: int)
    requires
        0 <= k < dim <= MAX_DIM,
    ensures
        column_graph(k, dim).len() == 2 * (k + 1),
        graph_well_formed(column_graph(k, dim), k + 1, dim * dim),
{
    let g = column_graph(k, dim);
    let n = k + 1;
    let cells = dim * dim;
    assert forall|p: int| 0 <= p < g.len() implies #[trigger] agent_resolves(g, p, n, cells) by {
        if p > k {
            lemma_cell_index_bounds(p - (k + 1), k, dim);
            assert(g[k].is_state_vector());
        }
    }
    assert forall|p: int, q: int|
        0 <= p < g.len() && 0 <= q < g.len() && p != q && (#[trigger] g[p]).is_scanner() && (
        #[trigger] g[q]).is_scanner() implies g[p].aux_port != g[q].aux_port by {
        lemma_cell_index_bounds(p - (k + 1), k, dim);
        lemma_cell_index_bounds(q - (k + 1), k, dim);
        if g[p].aux_port == g[q].aux_port {
            lemma_cell_index_injective(p - (k + 1), k, q - (k + 1), k, dim);
        }
    }
}

/// Builds the graph of iteration `k` for the current basis, whose newest
/// vector is vector `k`, and a matrix of dimension `dim`.
pub fn build_graph(basis: &Vec<SymbolicParams>, k: usize, dim: usize) -> (agents: Vec<Agent>)
    requires
        basis.len() == k + 1,
        k < dim <= MAX_DIM,
    ensures
        agents@ == column_graph(k as int, dim as int),
        graph_well_formed(agents@, basis.len() as int, dim * dim),
{
    let n: usize = basis.len();
    let mut agents: Vec<Agent> = Vec::new();
    let mut i: usize = 0;
    while i < n
        invariant
            n == k + 1,
            k < dim <= MAX_DIM,
            i <= n,
            agents.len() == i,
            forall|p: int| 0 <= p < i ==> agents[p] == state_vector_agent(p),
        decreases n - i,
    {
        agents.push(
            Agent {
                kind: AgentKind::StateVector.code(),
                principal_port: 0,
                aux_port: 0,
                param_index: i as u32,
                shift_val: 0,
            },
        );
        i = i + 1;
    }
    let mut j: usize = 0;
    while j < n
        invariant
            n == k + 1,
            k < dim <= MAX_DIM,
            j <= n,
            agents.len() == n + j,
            forall|p: int| 0 <= p < n ==> agents[p] == state_vector_agent(p),
            forall|p: int| n <= p < n + j ==> agents[p] == scanner_agent(p - n, k as int, dim as int),
        decreases n - j,
    {
        proof {
            lemma_cell_index_bounds(j as int, k as int, dim as int);
            assert(j * dim <= k * dim) by (nonlinear_arith)
                requires
                    j <= k,
                    0 <= dim,
            ;
            assert(k * dim <= 65536 * 65536) by (nonlinear_arith)
                requires
                    0 <= k < 65536,
                    0 <= dim <= 65536,
            ;
        }
        let cell: usize = j * dim + k;
        agents.push(
            Agent {
                kind: AgentKind::MetricScanner.code(),
                principal_port: k as u32,
                aux_port: cell as u32,
                param_index: j as u32,
                shift_val: 0,
            },
        );
        j = j + 1;
    }
    proof {
        assert(agents@ =~= column_graph(k as int, dim as int));
        lemma_column_graph_well_formed(k as int, dim as int);
    }
    agents
}

} // verus!
