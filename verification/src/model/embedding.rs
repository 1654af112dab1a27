//! References to embeddings.
use vstd::prelude::*;

verus! {

/// An embedding vector, each component by its bit pattern.
#[derive(Debug, PartialEq, Eq)]
pub struct Embedding(pub Vec<crate::float32::Float32>);

impl Clone for Embedding {
    fn clone(&self) -> (result: Self)
        ensures
            result.0@ == self.0@,
    {
        let result = Embedding(self.0.clone());
        assert(result.0@ =~= self.0@);
        result
    }
}

/// Names the embedding of a node.
#[derive(Debug, PartialEq, Eq, Hash)]
pub struct EmbeddingRef(pub String);

impl Clone for EmbeddingRef {
    fn clone(&self) -> (result: Self)
        ensures
            result == *self,
    {
        EmbeddingRef(self.0.clone())
    }
}

impl EmbeddingRef {
    /// The reference of a node: its kind and its identifier.
    pub fn for_node(prefix: &str, node_id: String) -> (result: Self)
        ensures
            result.0@ == embedding_ref_text(prefix@, node_id@),
    {
        EmbeddingRef(prefix.to_string().concat(":").concat(node_id.as_str()))
    }
}

/// Text of the reference of a node.
pub open spec fn embedding_ref_text(prefix: Seq<char>, node_id: Seq<char>) -> Seq<char> {
    prefix + ":"@ + node_id
}

} // verus!
