//! What the engine says to models and what they answer.
pub mod embedding;
pub mod openai_chat;
pub mod openai_embedding;
pub mod openai_http;
pub mod runner;

pub use embedding::{Embedding, EmbeddingRef};
pub use openai_embedding::OpenAiEmbeddingConfig;
pub use runner::{ModelInput, ModelOutput, ModelUsage, ToolCallRequest};
