//! The turn loop: what is assembled, decided and recorded.
pub mod batch_commit;
pub mod bisect;
pub mod claimed_batch;
pub mod context_assembler;
pub mod conversation;
pub mod distillation;
pub mod estimator;
pub mod execution_graph;
pub mod graph_runner;
pub mod graph_spec;
pub mod nodes;
pub mod operation_keys;
pub mod session_engine;
pub mod tool_budget;
pub mod tool_execution;
pub mod tool_phases;
pub mod tool_results;
pub mod tool_round;
pub mod tool_storage;

pub use context_assembler::{AssembledContext, ContextAssembler, SessionWindowDecision};
pub use estimator::TokenEstimator;
pub use execution_graph::{
    ExecutionGraph, ExecutionProfile, ExecutionState, GraphRunResult, NodeOutcome,
    NodeRuntimeClass, ResolvedRunOptions, RunOptions, SessionRequest, DEFAULT_EDGE,
};
pub use graph_runner::GraphRunner;
pub use graph_spec::{build_default_execution_graph, build_external_context_execution_graph};
pub use nodes::SessionResponse;
pub use session_engine::{resume_loop, MaintenanceReport};
