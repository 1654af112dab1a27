//! Which memories come to mind.
pub mod activation;
pub mod distillation;
pub mod query;
pub mod scoring;

pub use activation::{ActivatedMemory, RankedAbstractNode, RankedRawNode};
pub use distillation::{DistillationInput, DistillationOutput, RawLifecycleUpdate};
pub use query::ActivationQuery;
pub use scoring::ScoringPolicy;
