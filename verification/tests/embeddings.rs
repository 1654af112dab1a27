use std::collections::HashSet;

use takos_agent_engine::model::embedding::EmbeddingRef;

#[test]
fn embedding_ref_for_node_format() {
    let eref = EmbeddingRef::for_node("raw", "abc-123".to_string());
    assert_eq!(eref.0, "raw:abc-123");
}

#[test]
fn embedding_ref_for_node_abstract() {
    let eref = EmbeddingRef::for_node("abstract", "xyz".to_string());
    assert_eq!(eref.0, "abstract:xyz");
}

#[test]
fn embedding_ref_equality() {
    let a = EmbeddingRef::for_node("raw", "id1".to_string());
    let b = EmbeddingRef::for_node("raw", "id1".to_string());
    assert_eq!(a, b);
}

#[test]
fn embedding_ref_inequality() {
    let a = EmbeddingRef::for_node("raw", "id1".to_string());
    let b = EmbeddingRef::for_node("raw", "id2".to_string());
    assert_ne!(a, b);
}

#[test]
fn embedding_ref_is_hashable() {
    let mut set = HashSet::new();
    let eref = EmbeddingRef::for_node("raw", "id1".to_string());
    set.insert(eref.clone());
    set.insert(eref.clone());
    assert_eq!(set.len(), 1);
}
