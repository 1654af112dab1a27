//! The decisions of an agent engine, verified: what a turn assembles, runs,
//! records and shows, how memories are found, and what is stored where.
//!
//! Nothing here waits, reads or writes. The functions take what came back from
//! storage, models and tools, and say what to do next.
pub mod config;
pub mod domain;
pub mod engine;
pub mod error;
pub mod float32;
pub mod ids;
pub mod json;
pub mod memory;
pub mod model;
pub mod order;
pub mod storage;
pub mod table;
pub mod text;
pub mod time;
pub mod tools;

pub use engine::execution_graph::{
    ExecutionGraph, ExecutionState, GraphRunResult, NodeOutcome, NodeRuntimeClass,
    ResolvedRunOptions, RunOptions, SessionRequest, DEFAULT_EDGE,
};
pub use engine::graph_runner::GraphRunner;
pub use engine::graph_spec::build_default_execution_graph;
pub use engine::nodes::SessionResponse;
pub use engine::session_engine::{resume_loop, MaintenanceReport};
pub use error::{EngineError, Result};
pub use ids::{AbstractNodeId, LoopId, RawNodeId, SessionId};
