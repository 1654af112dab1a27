//! What the engine remembers.
pub mod abstract_node;
pub mod loop_state;
pub mod raw_node;
pub mod relation;
pub mod session;

pub use abstract_node::{AbstractNode, AbstractNodeMetadata, EntityRef, GraphFragment, References};
pub use loop_state::{LoopState, LoopStatus};
pub use raw_node::{
    DistillationState, OverflowPolicy, RawContent, RawNode, RawNodeKind, RawNodeMetadata,
    Visibility,
};
pub use relation::Relation;
pub use session::{Session, SessionPlan};
