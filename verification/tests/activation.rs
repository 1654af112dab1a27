//! Activation as a whole: nodes are stored and indexed, found by their
//! embeddings, and ranked.
use takos_agent_engine::config::EngineConfig;
use takos_agent_engine::domain::abstract_node::{
    AbstractNode, AbstractNodeMetadata, GraphFragment, References,
};
use takos_agent_engine::domain::raw_node::{RawNode, RawNodeKind};
use takos_agent_engine::float32::Float32;
use takos_agent_engine::memory::activation::{
    activate, AbstractCandidate, ActivatedMemory, RawCandidate,
};
use takos_agent_engine::memory::scoring::ScoringPolicy;
use takos_agent_engine::model::embedding::Embedding;
use takos_agent_engine::storage::in_memory::InMemoryNodeRepository;
use takos_agent_engine::storage::records::{ScoredAbstractRef, ScoredRawRef};
use takos_agent_engine::storage::vector::{rank_abstract, rank_raw, InMemoryVectorIndex};
use takos_agent_engine::time::Timestamp;

const WIDTH: usize = 64;

fn float(value: f32) -> Float32 {
    Float32::from_bits(value.to_bits())
}

fn value(float: Float32) -> f32 {
    f32::from_bits(float.bits)
}

/// Counts the words of a text by a hash of each.
fn embed(text: &str) -> Embedding {
    let mut counts = [0.0f32; WIDTH];
    for word in text.split_whitespace() {
        let hash = word.bytes().fold(7usize, |hash, byte| hash.wrapping_mul(31) + byte as usize);
        counts[hash % WIDTH] += 1.0;
    }
    Embedding(counts.iter().map(|count| float(*count)).collect())
}

fn similarity(a: &Embedding, b: &Embedding) -> Float32 {
    let pairs = || a.0.iter().zip(&b.0).map(|(x, y)| (value(*x), value(*y)));
    let dot: f32 = pairs().map(|(x, y)| x * y).sum();
    let left: f32 = pairs().map(|(x, _)| x * x).sum();
    let right: f32 = pairs().map(|(_, y)| y * y).sum();
    float(dot / (left.sqrt() * right.sqrt()))
}

/// Mostly the similarity, and a little of what a memory is worth.
struct Weighted;

impl ScoringPolicy for Weighted {
    fn score_raw(&self, base_similarity: Float32, node: &RawNode, _now: Timestamp) -> Float32 {
        float(value(base_similarity) * 0.8 + value(node.metadata.importance) * 0.2)
    }

    fn score_abstract(
        &self,
        base_similarity: Float32,
        node: &AbstractNode,
        _now: Timestamp,
    ) -> Float32 {
        float(value(base_similarity) * 0.8 + value(node.metadata.importance) * 0.2)
    }
}

#[derive(Default)]
struct Harness {
    repository: InMemoryNodeRepository,
    vector: InMemoryVectorIndex,
}

impl Harness {
    fn add_raw(&mut self, text: &str, importance: f32) -> RawNode {
        let node = RawNode::text(
            RawNodeKind::UserUtterance,
            None,
            None,
            "user",
            text,
            float(importance),
            Vec::new(),
        );
        self.repository.insert_raw(node.clone());
        self.vector.index_raw(node.id, embed(text));
        node
    }

    fn activate(&self, config: &EngineConfig, query: &str) -> ActivatedMemory {
        let query = embed(query);
        let window = config.memory.activation.window().search_window;
        let found = self.vector.raw_candidates(None);
        let scored = found.iter().map(|candidate| ScoredRawRef {
            id: candidate.id,
            score: similarity(&query, &candidate.embedding),
        });
        let raws = rank_raw(scored.collect(), window).into_iter().map(|reference| RawCandidate {
            node: self.repository.get_raw(&reference.id),
            reference,
        });
        let found = self.vector.abstract_candidates(None);
        let scored = found.iter().map(|candidate| ScoredAbstractRef {
            id: candidate.id,
            score: similarity(&query, &candidate.embedding),
        });
        let abstracts =
            rank_abstract(scored.collect(), window).into_iter().map(|reference| AbstractCandidate {
                node: self.repository.get_abstract(&reference.id),
                reference,
            });
        activate(&Weighted, config, Timestamp::now(), raws.collect(), abstracts.collect())
    }
}

#[test]
fn activate_with_no_nodes_returns_empty() {
    let result = Harness::default().activate(&EngineConfig::default(), "hello");
    assert!(result.raw_nodes.is_empty());
    assert!(result.abstract_nodes.is_empty());
}

#[test]
fn activate_returns_matching_raw_nodes() {
    let mut config = EngineConfig::default();
    config.memory.retrieval.similarity_threshold.raw = float(0.0);
    config.memory.retrieval.similarity_threshold.abstract_nodes = float(0.0);
    let mut harness = Harness::default();
    let node = harness.add_raw("hello world", 0.8);
    let result = harness.activate(&config, "hello world");
    assert!(!result.raw_nodes.is_empty());
    assert_eq!(result.raw_nodes[0].node.id, node.id);
    assert!(value(result.raw_nodes[0].score) > 0.5);
}

#[test]
fn activate_returns_matching_abstract_nodes() {
    let mut config = EngineConfig::default();
    config.memory.retrieval.similarity_threshold.raw = float(0.0);
    config.memory.retrieval.similarity_threshold.abstract_nodes = float(0.0);
    let mut harness = Harness::default();
    let node = AbstractNode::new(
        "test topic",
        "a summary about testing",
        References::default(),
        GraphFragment::default(),
        AbstractNodeMetadata::default(),
    );
    harness.repository.insert_abstract(node.clone());
    harness.vector.index_abstract(node.id, embed("test topic: a summary about testing"));
    let result = harness.activate(&config, "test topic: a summary about testing");
    assert!(!result.abstract_nodes.is_empty());
    assert_eq!(result.abstract_nodes[0].node.id, node.id);
}

#[test]
fn activate_respects_similarity_threshold() {
    let mut config = EngineConfig::default();
    config.memory.retrieval.similarity_threshold.raw = float(0.99);
    config.memory.retrieval.similarity_threshold.abstract_nodes = float(0.99);
    let mut harness = Harness::default();
    harness.add_raw("apples and oranges", 0.5);
    let result = harness.activate(&config, "completely unrelated query about rockets");
    assert!(result.raw_nodes.is_empty());
    assert_eq!(harness.activate(&config, "apples and oranges").raw_nodes.len(), 1);
}

#[test]
fn activate_respects_budget() {
    let mut config = EngineConfig::default();
    config.memory.retrieval.similarity_threshold.raw = float(0.0);
    config.memory.activation.top_k_total = 2;
    config.memory.activation.target_ratio.raw = 1;
    config.memory.activation.target_ratio.abstract_nodes = 1;
    let mut harness = Harness::default();
    for i in 0..10 {
        harness.add_raw(&format!("node number {i} with some content"), 0.5);
    }
    let result = harness.activate(&config, "node number 5 with some content");
    assert!(result.raw_nodes.len() <= 2);
    assert_eq!(result.raw_nodes[0].node.content_text(), "node number 5 with some content");
}

#[test]
fn activate_results_sorted_by_score_descending() {
    let mut config = EngineConfig::default();
    config.memory.retrieval.similarity_threshold.raw = float(0.0);
    config.memory.activation.top_k_total = 20;
    let mut harness = Harness::default();
    for text in ["hello world", "goodbye world", "hello there friend"] {
        harness.add_raw(text, 0.5);
    }
    let result = harness.activate(&config, "hello world");
    assert_eq!(result.raw_nodes.len(), 3);
    for window in result.raw_nodes.windows(2) {
        assert!(value(window[0].score) >= value(window[1].score));
    }
}
