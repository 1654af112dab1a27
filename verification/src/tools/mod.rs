//! Tools that a model may call.
pub mod executor;
pub mod memory_tools;
