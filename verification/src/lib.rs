//! Shift-invert Krylov expansion over symbolic wave packets, with the pairwise
//! inner products evaluated by a compute device that consumes a flat graph of
//! typed agents.
//!
//! The crate holds everything that can be decided on integers: the agent graph
//! of each iteration, the binary records that the device reads, the order of
//! the host's steps, and the model of what a conforming evaluator leaves in the
//! output matrix. Real-valued quantities are carried as binary32 bit patterns;
//! no arithmetic is done on them here.

pub mod agent;
pub mod bound;
pub mod error;
pub mod graph;
pub mod kernel;
pub mod krylov;
pub mod layout;
pub mod orchestrator;
pub mod params;

pub use agent::{Agent, AgentKind};
pub use bound::{step_operands, FALLBACK_STEP_BITS};
pub use error::SirkError;
pub use graph::{build_graph, MAX_DIM};
pub use layout::{
    decode_matrix, encode_agents, encode_params, output_buffer_size, workgroup_count, CELL_BYTES,
    RECORD_BYTES, RECORD_WORDS, WORKGROUP_SIZE,
};
pub use orchestrator::{Action, Event, Orchestrator, Phase};
pub use params::{Complex32, SymbolicParams, GAUSSIAN, POSITIVE_INFINITY_BITS};
