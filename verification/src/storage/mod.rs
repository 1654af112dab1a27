//! Repositories: what is kept, how it is indexed and how it is found again.
pub mod claims;
pub mod graph;
pub mod in_memory;
pub mod layout;
pub mod object_complete;
pub mod object_index;
pub mod object_rebuild;
pub mod object_search;
pub mod object_store;
pub mod records;
pub mod rows;
pub mod timeline;
pub mod vector;
pub mod walk;

pub use in_memory::{InMemoryLoopStateRepository, InMemoryNodeRepository};
pub use records::{GraphTraversalHit, RawLifecyclePatch, ScoredAbstractRef, ScoredRawRef};
pub use vector::InMemoryVectorIndex;
pub use walk::InMemoryGraphRepository;
