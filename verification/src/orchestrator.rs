//! The Krylov loop, as a state machine.
//!
//! The orchestrator owns the shifts, the basis and the iteration counter, and
//! decides what happens next. The host performs each action (the resolvent
//! step on real numbers, the upload and dispatch, the final readback) and
//! reports back with an event. One run goes
//!
//! ```text
//! Idle -Start-> Dispatching -Dispatched-> Advancing -Advanced-> Dispatching ...
//!      ... -Dispatched-> Reading -Readback-> Finished
//! ```
//!
//! with one `Dispatching` per shift. Any failure ends the run in `Aborted`.

use vstd::prelude::*;
use crate::bound::{step_operands, step_operands_of};
use crate::error::SirkError;
use crate::graph::{build_graph, column_graph, MAX_DIM};
use crate::krylov::{basis_model, lemma_matrix_size, run_model};
use crate::layout::{
    agent_words, decode_matrix, encode_agents, encode_params, lemma_words_round_trip,
    matrix_bytes, matrix_lanes, native_bytes, native_words, output_buffer_size, param_words,
    workgroup_count, workgroups_for,
};
use crate::params::{Complex32, SymbolicParams};

verus! {

/// What the orchestrator is waiting for.
#[derive(Clone, Copy, Debug, PartialEq, Eq, Structural)]
pub enum Phase {
    /// Nothing has happened yet; waiting for the host to start the run.
    Idle,
    /// Waiting for the next basis vector.
    Advancing,
    /// Waiting for the dispatch of the current column to be submitted.
    Dispatching,
    /// All columns are dispatched; waiting for the matrix to come back.
    Reading,
    /// The run handed out its result.
    Finished,
    /// The run failed; it has no result.
    Aborted,
}

/// What the host reports.
#[derive(Debug, PartialEq, Eq)]
pub enum Event {
    /// The device is set up and the output buffer exists.
    Start,
    /// The resolvent step that was asked for gave this vector.
    Advanced(SymbolicParams),
    /// The dispatch that was asked for has been submitted.
    Dispatched,
    /// The output buffer has been copied back; these are its bytes.
    Readback(Vec<u8>),
    /// No compute device could be had.
    DeviceUnavailable,
    /// The device failed in a dispatch or a transfer.
    DeviceFailed,
}

/// What the host has to do next.
#[derive(Debug, PartialEq, Eq)]
pub enum Action {
    /// Apply the resolvent with `shift` to `prev` and report the result.
    Advance { prev: SymbolicParams, shift: u32 },
    /// Upload the two buffers, bind them before the output buffer, and dispatch
    /// `workgroups` workgroups.
    Dispatch { params: Vec<u8>, agents: Vec<u8>, workgroups: u32 },
    /// Copy `size` bytes of the output buffer back and report them.
    Readback { size: u64 },
    /// The run is over: the matrix, two lanes per cell, and the shifts that the
    /// step of the error bound is taken from.
    Finish { matrix: Vec<u32>, step: Option<(u32, u32)> },
}

/// An action, with its buffers as sequences.
pub ghost enum ActionView {
    Advance { prev: SymbolicParams, shift: u32 },
    Dispatch { params: Seq<u8>, agents: Seq<u8>, workgroups: u32 },
    Readback { size: u64 },
    Finish { matrix: Seq<u32>, step: Option<(u32, u32)> },
}

impl View for Action {
    type V = ActionView;

    open spec fn view(&self) -> ActionView {
        match *self {
            Action::Advance { prev, shift } => ActionView::Advance { prev, shift },
            Action::Dispatch { params, agents, workgroups } => ActionView::Dispatch {
                params: params@,
                agents: agents@,
                workgroups,
            },
            Action::Readback { size } => ActionView::Readback { size },
            Action::Finish { matrix, step } => ActionView::Finish { matrix: matrix@, step },
        }
    }
}

/// The state of a run.
pub ghost struct RunState {
    /// The shift sequence; its length is the dimension of the matrix.
    pub shifts: Seq<u32>,
    /// The basis so far.
    pub basis: Seq<SymbolicParams>,
    /// The column that is being prepared or dispatched; the number of columns
    /// that are done.
    pub column: nat,
    /// What the run is waiting for.
    pub phase: Phase,
}

impl RunState {
    /// The dimension of the matrix.
    pub open spec fn dim(self) -> nat {
        self.shifts.len()
    }

    /// The invariant of a run. The dimension is at least one and within the
    /// limit. Outside of failure the basis has one vector per column that is
    /// done or in preparation, so it grows by exactly one per iteration, and it
    /// has as many vectors as there are shifts once the loop is over.
    pub open spec fn wf(self) -> bool {
        &&& 1 <= self.dim() <= MAX_DIM
        &&& 1 <= self.basis.len() <= self.dim()
        &&& self.column <= self.dim()
        &&& match self.phase {
            Phase::Idle => self.column == 0 && self.basis.len() == 1,
            Phase::Advancing => 1 <= self.column < self.dim() && self.basis.len() == self.column,
            Phase::Dispatching => self.column < self.dim() && self.basis.len() == self.column + 1,
            Phase::Reading | Phase::Finished => self.column == self.dim() && self.basis.len()
                == self.dim(),
            Phase::Aborted => true,
        }
    }

    /// The state before the first event.
    pub open spec fn initial(initial: SymbolicParams, shifts: Seq<u32>) -> RunState {
        RunState { shifts, basis: seq![initial], column: 0, phase: Phase::Idle }
    }

    /// The same run, failed.
    pub open spec fn aborted(self) -> RunState {
        RunState { phase: Phase::Aborted, ..self }
    }

    /// The run has ended, one way or the other.
    pub open spec fn is_over(self) -> bool {
        self.phase == Phase::Finished || self.phase == Phase::Aborted
    }

    /// The dispatch of the current column.
    pub open spec fn dispatch(self) -> ActionView {
        ActionView::Dispatch {
            params: native_bytes(param_words(self.basis)),
            agents: native_bytes(agent_words(column_graph(self.column as int, self.dim() as int))),
            workgroups: workgroups_for(2 * (self.column + 1) as int) as u32,
        }
    }

    /// The state after `event`.
    pub open spec fn next(self, event: Event) -> RunState {
        if self.is_over() {
            self
        } else {
            match (self.phase, event) {
                (Phase::Idle, Event::Start) => RunState { phase: Phase::Dispatching, ..self },
                (Phase::Advancing, Event::Advanced(vector)) => RunState {
                    basis: self.basis.push(vector),
                    phase: Phase::Dispatching,
                    ..self
                },
                (Phase::Dispatching, Event::Dispatched) => RunState {
                    column: self.column + 1,
                    phase: if self.column + 1 < self.dim() {
                        Phase::Advancing
                    } else {
                        Phase::Reading
                    },
                    ..self
                },
                (Phase::Reading, Event::Readback(bytes)) => if bytes.len() == matrix_bytes(
                    self.dim() as int,
                ) {
                    RunState { phase: Phase::Finished, ..self }
                } else {
                    self.aborted()
                },
                _ => self.aborted(),
            }
        }
    }

    /// The answer to `event`: the next action, or the error that ends the run.
    pub open spec fn answer(self, event: Event) -> Result<ActionView, SirkError> {
        if self.is_over() {
            Err(SirkError::OutOfOrder)
        } else {
            match (self.phase, event) {
                (_, Event::DeviceFailed) => Err(SirkError::Device),
                (Phase::Idle, Event::DeviceUnavailable) => Err(SirkError::Setup),
                (Phase::Idle, Event::Start) => Ok(self.next(event).dispatch()),
                (Phase::Advancing, Event::Advanced(vector)) => Ok(self.next(event).dispatch()),
                (Phase::Dispatching, Event::Dispatched) => if self.column + 1 < self.dim() {
                    Ok(
                        ActionView::Advance {
                            prev: self.basis.last(),
                            shift: self.shifts[self.column as int],
                        },
                    )
                } else {
                    Ok(ActionView::Readback { size: matrix_bytes(self.dim() as int) as u64 })
                },
                (Phase::Reading, Event::Readback(bytes)) => if bytes.len() == matrix_bytes(
                    self.dim() as int,
                ) {
                    Ok(
                        ActionView::Finish {
                            matrix: native_words(bytes@),
                            step: step_operands_of(self.shifts),
                        },
                    )
                } else {
                    Err(SirkError::Device)
                },
                _ => Err(SirkError::OutOfOrder),
            }
        }
    }

    /// The basis is the one that the step rule `advance` derives from
    /// `initial`.
    pub open spec fn follows(
        self,
        advance: spec_fn(SymbolicParams, u32) -> SymbolicParams,
        initial: SymbolicParams,
    ) -> bool {
        self.basis == basis_model(advance, initial, self.shifts, (self.basis.len() - 1) as nat)
    }
}

/// The loop state of one run.
pub struct Orchestrator {
    shifts: Vec<u32>,
    basis: Vec<SymbolicParams>,
    column: usize,
    phase: Phase,
}

impl View for Orchestrator {
    type V = RunState;

    closed spec fn view(&self) -> RunState {
        RunState {
            shifts: self.shifts@,
            basis: self.basis@,
            column: self.column as nat,
            phase: self.phase,
        }
    }
}

impl Orchestrator {
    #[verifier::type_invariant]
    spec fn inv(self) -> bool {
        self@.wf()
    }

    /// Sets up a run from the initial basis vector and the shift sequence.
    /// An empty shift sequence is refused as degenerate, and one that is longer
    /// than the largest dimension whose cells an agent can address as a
    /// contract violation; every other input gives a run in its initial state.
    pub fn new(initial: SymbolicParams, shifts: Vec<u32>) -> (result: Result<Orchestrator, SirkError>)
        ensures
            shifts.len() == 0 ==> result == Err::<Orchestrator, SirkError>(SirkError::DegenerateInput),
            shifts.len() > MAX_DIM ==> result == Err::<Orchestrator, SirkError>(
                SirkError::ContractViolation,
            ),
            1 <= shifts.len() <= MAX_DIM ==> result is Ok && result->Ok_0@ == RunState::initial(
                initial,
                shifts@,
            ) && result->Ok_0@.wf(),
    {
        if shifts.len() == 0 {
            return Err(SirkError::DegenerateInput);
        }
        if shifts.len() > MAX_DIM {
            return Err(SirkError::ContractViolation);
        }
        let mut basis: Vec<SymbolicParams> = Vec::new();
        basis.push(initial);
        assert(basis@ =~= seq![initial]);
        Ok(Orchestrator { shifts, basis, column: 0, phase: Phase::Idle })
    }

    /// The dimension of the matrix: the number of shifts.
    pub fn dim(&self) -> (dim: usize)
        ensures
            dim == self@.dim(),
            1 <= dim <= MAX_DIM,
    {
        proof {
            use_type_invariant(self);
        }
        self.shifts.len()
    }

    /// The number of basis vectors so far.
    pub fn basis_len(&self) -> (len: usize)
        ensures
            len == self@.basis.len(),
            self@.wf(),
    {
        proof {
            use_type_invariant(self);
        }
        self.basis.len()
    }

    /// What the run is waiting for.
    pub fn phase(&self) -> (phase: Phase)
        ensures
            phase == self@.phase,
    {
        self.phase
    }

    /// Size in bytes of the output buffer that the host has to create before
    /// it starts the run.
    pub fn output_bytes(&self) -> (size: u64)
        ensures
            size == matrix_bytes(self@.dim() as int),
    {
        proof {
            use_type_invariant(self);
        }
        output_buffer_size(self.shifts.len())
    }

    fn abort(self) -> (next: Orchestrator)
        ensures
            next@ == self@.aborted(),
    {
        proof {
            use_type_invariant(&self);
        }
        Orchestrator {
            shifts: self.shifts,
            basis: self.basis,
            column: self.column,
            phase: Phase::Aborted,
        }
    }

    fn dispatch_action(&self) -> (action: Action)
        requires
            self@.phase == Phase::Dispatching,
        ensures
            action@ == self@.dispatch(),
    {
        proof {
            use_type_invariant(self);
        }
        let graph = build_graph(&self.basis, self.column, self.shifts.len());
        let params = encode_params(&self.basis);
        let agents = encode_agents(&graph);
        let workgroups = workgroup_count(graph.len());
        Action::Dispatch { params, agents, workgroups }
    }

    /// Takes the host's report and says what comes next. The new state and the
    /// answer are those of the transition table: see [`RunState::next`] and
    /// [`RunState::answer`]. An error ends the run.
    pub fn step(self, event: Event) -> (out: (Orchestrator, Result<Action, SirkError>))
        ensures
            out.0@ == self@.next(event),
            out.0@.wf(),
            match out.1 {
                Ok(action) => self@.answer(event) == Ok::<ActionView, SirkError>(action@),
                Err(e) => self@.answer(event) == Err::<ActionView, SirkError>(e) && out.0@.is_over(),
            },
    {
        proof {
            use_type_invariant(&self);
        }
        match self.phase {
            Phase::Finished | Phase::Aborted => {
                return (self, Err(SirkError::OutOfOrder));
            },
            _ => {},
        }
        match event {
            Event::DeviceFailed => (self.abort(), Err(SirkError::Device)),
            Event::DeviceUnavailable => {
                let idle = self.phase == Phase::Idle;
                (
                    self.abort(),
                    Err(
                        if idle {
                            SirkError::Setup
                        } else {
                            SirkError::OutOfOrder
                        },
                    ),
                )
            },
            Event::Start => {
                if self.phase == Phase::Idle {
                    let next = Orchestrator {
                        shifts: self.shifts,
                        basis: self.basis,
                        column: self.column,
                        phase: Phase::Dispatching,
                    };
                    let action = next.dispatch_action();
                    (next, Ok(action))
                } else {
                    (self.abort(), Err(SirkError::OutOfOrder))
                }
            },
            Event::Advanced(vector) => {
                if self.phase == Phase::Advancing {
                    let mut basis = self.basis;
                    basis.push(vector);
                    let next = Orchestrator {
                        shifts: self.shifts,
                        basis,
                        column: self.column,
                        phase: Phase::Dispatching,
                    };
                    let action = next.dispatch_action();
                    (next, Ok(action))
                } else {
                    (self.abort(), Err(SirkError::OutOfOrder))
                }
            },
            Event::Dispatched => {
                if self.phase == Phase::Dispatching {
                    let column = self.column + 1;
                    if column < self.shifts.len() {
                        let action = Action::Advance {
                            prev: self.basis[self.basis.len() - 1],
                            shift: self.shifts[self.column],
                        };
                        (
                            Orchestrator {
                                shifts: self.shifts,
                                basis: self.basis,
                                column,
                                phase: Phase::Advancing,
                            },
                            Ok(action),
                        )
                    } else {
                        let action = Action::Readback { size: output_buffer_size(self.shifts.len()) };
                        (
                            Orchestrator {
                                shifts: self.shifts,
                                basis: self.basis,
                                column,
                                phase: Phase::Reading,
                            },
                            Ok(action),
                        )
                    }
                } else {
                    (self.abort(), Err(SirkError::OutOfOrder))
                }
            },
            Event::Readback(bytes) => {
                if self.phase == Phase::Reading {
                    match decode_matrix(&bytes, self.shifts.len()) {
                        Ok(matrix) => {
                            let step = step_operands(&self.shifts);
                            (
                                Orchestrator {
                                    shifts: self.shifts,
                                    basis: self.basis,
                                    column: self.column,
                                    phase: Phase::Finished,
                                },
                                Ok(Action::Finish { matrix, step }),
                            )
                        },
                        Err(e) => (self.abort(), Err(e)),
                    }
                } else {
                    (self.abort(), Err(SirkError::OutOfOrder))
                }
            },
        }
    }
}

/// Every transition keeps the invariant of a run.
pub proof fn lemma_step_keeps_invariant(state: RunState, event: Event)
    requires
        state.wf(),
    ensures
        state.next(event).wf(),
        state.next(event).shifts == state.shifts,
        state.basis.is_prefix_of(state.next(event).basis),
        state.next(event).basis.len() <= state.basis.len() + 1,
{
}

/// A run that is over stays as it is, and a run fails exactly when the answer
/// is an error.
pub proof fn lemma_errors_end_the_run(state: RunState, event: Event)
    requires
        state.wf(),
    ensures
        state.is_over() ==> state.next(event) == state,
        state.answer(event) is Err ==> state.next(event).is_over(),
        state.answer(event) is Err && !state.is_over() ==> state.next(event).phase == Phase::Aborted,
        state.answer(event) is Ok ==> !state.next(event).is_over() || state.next(event).phase
            == Phase::Finished,
{
}

/// Once the loop is over the basis has exactly as many vectors as there are
/// shifts: the initial one and one derived vector for each shift but the last.
pub proof fn lemma_full_basis_after_loop(state: RunState)
    requires
        state.wf(),
        state.phase == Phase::Reading || state.phase == Phase::Finished,
    ensures
        state.basis.len() == state.shifts.len(),
        state.column == state.shifts.len(),
{
}

/// The matrix that a run hands out has two lanes for each of its `m * m`
/// cells, where `m` is the number of shifts.
pub proof fn lemma_finish_has_full_matrix(state: RunState, event: Event)
    requires
        state.wf(),
        state.answer(event) is Ok,
        state.answer(event)->Ok_0 is Finish,
    ensures
        state.answer(event)->Ok_0->matrix.len() == 2 * (state.dim() * state.dim()),
        state.next(event).phase == Phase::Finished,
        state.next(event).basis.len() == state.dim(),
{
}

/// A host that answers each request for a resolvent step with the value of
/// `advance` on the requested vector and shift keeps the basis on the model:
/// if the basis follows the model before an event, and the event, where it
/// brings a vector, brings that value, the basis follows the model after it.
pub proof fn lemma_step_follows_model(
    state: RunState,
    event: Event,
    advance: spec_fn(SymbolicParams, u32) -> SymbolicParams,
    initial: SymbolicParams,
)
    requires
        state.wf(),
        state.follows(advance, initial),
        event matches Event::Advanced(vector) ==> vector == advance(
            state.basis.last(),
            state.shifts[state.column - 1],
        ),
    ensures
        state.next(event).follows(advance, initial),
        state.answer(event) matches Ok(ActionView::Advance { prev, shift }) ==> prev
            == state.next(event).basis.last() && shift == state.next(event).shifts[state.next(
            event,
        ).column - 1],
{
    if !state.is_over() && state.phase == Phase::Advancing && (event is Advanced) {
        let k = state.column;
        assert(basis_model(advance, initial, state.shifts, k) == basis_model(
            advance,
            initial,
            state.shifts,
            (k - 1) as nat,
        ).push(
            advance(
                basis_model(advance, initial, state.shifts, (k - 1) as nat).last(),
                state.shifts[k - 1],
            ),
        ));
    }
}

/// A fresh run follows the model of every step rule.
pub proof fn lemma_initial_follows_model(
    advance: spec_fn(SymbolicParams, u32) -> SymbolicParams,
    initial: SymbolicParams,
    shifts: Seq<u32>,
)
    requires
        1 <= shifts.len() <= MAX_DIM,
    ensures
        RunState::initial(initial, shifts).wf(),
        RunState::initial(initial, shifts).follows(advance, initial),
{
    assert(basis_model(advance, initial, shifts, 0) == seq![initial]);
}

/// If the output buffer holds the matrix of the model when it is read back, the
/// run hands out exactly the lanes of that matrix.
pub proof fn lemma_readback_returns_matrix(
    state: RunState,
    bytes: Vec<u8>,
    advance: spec_fn(SymbolicParams, u32) -> SymbolicParams,
    overlap: spec_fn(SymbolicParams, SymbolicParams) -> Complex32,
    initial: SymbolicParams,
)
    requires
        state.wf(),
        state.phase == Phase::Reading,
        bytes@ == native_bytes(matrix_lanes(run_model(advance, overlap, initial, state.shifts))),
    ensures
        state.answer(Event::Readback(bytes)) == Ok::<ActionView, SirkError>(
            ActionView::Finish {
                matrix: matrix_lanes(run_model(advance, overlap, initial, state.shifts)),
                step: step_operands_of(state.shifts),
            },
        ),
{
    let lanes = matrix_lanes(run_model(advance, overlap, initial, state.shifts));
    lemma_matrix_size(advance, overlap, initial, state.shifts);
    lemma_words_round_trip(vstd::endian::endianness(), lanes);
}

} // verus!
