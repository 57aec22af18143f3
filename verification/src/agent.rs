//! Agents: the typed nodes of the per-iteration computation graph.

use vstd::prelude::*;

verus! {

/// What an agent does when the evaluator visits it.
#[derive(Clone, Copy, Debug, PartialEq, Eq, Structural)]
pub enum AgentKind {
    /// Unused slot; never evaluated.
    Free,
    /// Applies the resolvent symbolically; reserved for richer graphs.
    ResolventOp,
    /// Requests the inner product of two basis vectors.
    MetricScanner,
    /// Stands for a basis vector, so that other agents can point at it.
    StateVector,
}

impl AgentKind {
    /// The number that stands for the kind in an agent record.
    pub open spec fn spec_code(self) -> u32 {
        match self {
            AgentKind::Free => 0,
            AgentKind::ResolventOp => 1,
            AgentKind::MetricScanner => 2,
            AgentKind::StateVector => 3,
        }
    }

    /// The kind that a record's number stands for, if any.
    pub open spec fn spec_from_code(code: u32) -> Option<AgentKind> {
        if code == 0 {
            Some(AgentKind::Free)
        } else if code == 1 {
            Some(AgentKind::ResolventOp)
        } else if code == 2 {
            Some(AgentKind::MetricScanner)
        } else if code == 3 {
            Some(AgentKind::StateVector)
        } else {
            None
        }
    }

    /// The number that stands for the kind in an agent record.
    #[verifier::when_used_as_spec(spec_code)]
    pub fn code(self) -> (code: u32)
        ensures
            code == self.spec_code(),
    {
        match self {
            AgentKind::Free => 0,
            AgentKind::ResolventOp => 1,
            AgentKind::MetricScanner => 2,
            AgentKind::StateVector => 3,
        }
    }

    /// Reads a kind back from a record's number; `None` for a number that no
    /// kind has.
    #[verifier::when_used_as_spec(spec_from_code)]
    pub fn from_code(code: u32) -> (kind: Option<AgentKind>)
        ensures
            kind == Self::spec_from_code(code),
    {
        if code == 0 {
            Some(AgentKind::Free)
        } else if code == 1 {
            Some(AgentKind::ResolventOp)
        } else if code == 2 {
            Some(AgentKind::MetricScanner)
        } else if code == 3 {
            Some(AgentKind::StateVector)
        } else {
            None
        }
    }

    /// Every kind is read back from its own number, and from no other.
    pub proof fn lemma_code_round_trip(kind: AgentKind, code: u32)
        ensures
            Self::spec_from_code(kind.spec_code()) == Some(kind),
            Self::spec_from_code(code) == Some(kind) <==> code == kind.spec_code(),
    {
    }
}

/// One node of the graph. Ports name other agents by their position in the
/// same graph.
#[derive(Clone, Copy, Debug, PartialEq, Eq, Structural)]
pub struct Agent {
    /// Number of the agent's kind.
    pub kind: u32,
    /// Position of the agent that this one acts on.
    pub principal_port: u32,
    /// Secondary target; for a scanner, the output cell that it writes.
    pub aux_port: u32,
    /// Slot in the parameter sequence.
    pub param_index: u32,
    /// Shift of a resolvent agent, as a bit pattern; zero for the other kinds.
    pub shift_val: u32,
}

impl Agent {
    /// The agent's kind, where its number names one.
    pub open spec fn spec_agent_kind(self) -> Option<AgentKind> {
        AgentKind::spec_from_code(self.kind)
    }

    /// The agent's kind, where its number names one.
    pub fn agent_kind(&self) -> (kind: Option<AgentKind>)
        ensures
            kind == self.spec_agent_kind(),
    {
        AgentKind::from_code(self.kind)
    }

    /// The agent is a state vector.
    pub open spec fn is_state_vector(self) -> bool {
        self.kind == AgentKind::StateVector.spec_code()
    }

    /// The agent is a metric scanner.
    pub open spec fn is_scanner(self) -> bool {
        self.kind == AgentKind::MetricScanner.spec_code()
    }
}

} // verus!
