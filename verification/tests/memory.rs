use takos_agent_engine::config::EngineConfig;
use takos_agent_engine::domain::abstract_node::{
    AbstractNode, AbstractNodeMetadata, GraphFragment, References,
};
use takos_agent_engine::domain::raw_node::{
    DistillationState, OverflowPolicy, RawNode, RawNodeKind,
};
use takos_agent_engine::float32::{ratios_sum_to_one, scaled, Float32};
use takos_agent_engine::ids::{RawNodeId, RawNodeIdOrder};
use takos_agent_engine::memory::activation::{
    activate, raw_threshold, select_raw, AbstractCandidate, RawCandidate,
};
use takos_agent_engine::memory::query::ActivationQuery;
use takos_agent_engine::memory::scoring::{
    age_in_seconds, overflow_relaxation_active, ScoringPolicy,
};
use takos_agent_engine::order::{dedup, insert_in_order, sort_by};
use takos_agent_engine::storage::records::{ScoredAbstractRef, ScoredRawRef};
use takos_agent_engine::storage::timeline::{TimeOrder, Window};
use takos_agent_engine::table::Table;
use takos_agent_engine::text::{
    byte_len, decimal_text, is_blank, is_text_before, join, parse_unsigned, starts_with,
    trim_trailing_slashes, trimmed_characters,
};
use takos_agent_engine::time::{Duration, Timestamp};

fn float(value: f32) -> Float32 {
    Float32::from_bits(value.to_bits())
}

fn at(secs: i64) -> Timestamp {
    Timestamp { secs, nanos: 0 }
}

/// Scores a memory by its similarity.
struct Similarity;

impl ScoringPolicy for Similarity {
    fn score_raw(&self, base_similarity: Float32, _node: &RawNode, _now: Timestamp) -> Float32 {
        base_similarity
    }

    fn score_abstract(
        &self,
        base_similarity: Float32,
        _node: &AbstractNode,
        _now: Timestamp,
    ) -> Float32 {
        base_similarity
    }
}

fn raw(text: &str) -> RawNode {
    RawNode::text(
        RawNodeKind::UserUtterance,
        None,
        None,
        "user",
        text,
        float(0.5),
        Vec::new(),
    )
}

fn candidate(node: &RawNode, score: f32) -> RawCandidate {
    RawCandidate {
        reference: ScoredRawRef { id: node.id, score: float(score) },
        node: Some(node.clone()),
    }
}

#[test]
fn nothing_is_activated_from_nothing() {
    let result = activate(&Similarity, &EngineConfig::default(), at(0), Vec::new(), Vec::new());
    assert!(result.raw_nodes.is_empty());
    assert!(result.abstract_nodes.is_empty());
}

#[test]
fn found_memories_are_activated() {
    let mut config = EngineConfig::default();
    config.memory.retrieval.similarity_threshold.raw = float(0.0);
    let node = raw("hello world");
    let missing = RawCandidate {
        reference: ScoredRawRef { id: RawNodeId::new(), score: float(1.0) },
        node: None,
    };
    let result = activate(
        &Similarity,
        &config,
        at(0),
        vec![missing, candidate(&node, 0.9)],
        Vec::new(),
    );
    assert_eq!(result.raw_nodes.len(), 1);
    assert_eq!(result.raw_nodes[0].node.id, node.id);
    assert_eq!(result.raw_nodes[0].score, float(0.9));
}

#[test]
fn abstract_thresholds_are_inclusive() {
    let mut config = EngineConfig::default();
    config.memory.retrieval.similarity_threshold.abstract_nodes = float(0.5);
    let node = AbstractNode::new(
        "test topic",
        "a summary about testing",
        References::default(),
        GraphFragment::default(),
        AbstractNodeMetadata::default(),
    );
    let found = |score: f32| AbstractCandidate {
        reference: ScoredAbstractRef { id: node.id, score: float(score) },
        node: Some(node.clone()),
    };
    let result = activate(&Similarity, &config, at(0), Vec::new(), vec![found(0.5)]);
    assert_eq!(result.abstract_nodes[0].node.id, node.id);
    let result = activate(&Similarity, &config, at(0), Vec::new(), vec![found(0.49)]);
    assert!(result.abstract_nodes.is_empty());
}

#[test]
fn raw_thresholds_are_inclusive() {
    let mut config = EngineConfig::default();
    config.memory.retrieval.similarity_threshold.raw = float(0.99);
    let node = raw("apples and oranges");
    let below = activate(&Similarity, &config, at(0), vec![candidate(&node, 0.98)], Vec::new());
    assert!(below.raw_nodes.is_empty());
    let exact = activate(&Similarity, &config, at(0), vec![candidate(&node, 0.99)], Vec::new());
    assert_eq!(exact.raw_nodes.len(), 1);
}

#[test]
fn pushed_out_memories_have_a_lower_threshold() {
    let config = EngineConfig::default();
    let retrieval = &config.memory.retrieval;
    let (usual, relaxed) =
        (retrieval.similarity_threshold.raw, retrieval.relaxed_threshold_for_pushed_raw);
    let mut node = raw("old");
    assert_eq!(raw_threshold(retrieval, &node, at(0)), usual);
    node.overflow.was_pushed_out_of_session = true;
    assert_eq!(raw_threshold(retrieval, &node, at(0)), usual);
    node.overflow.relax_retrieval_until = Some(at(10));
    assert_eq!(raw_threshold(retrieval, &node, at(9)), relaxed);
    assert_eq!(raw_threshold(retrieval, &node, at(10)), usual);
    assert_eq!(raw_threshold(retrieval, &node, at(11)), usual);
    node.distillation_state = DistillationState::Distilled;
    assert_eq!(raw_threshold(retrieval, &node, at(9)), usual);
}

#[test]
fn memories_are_not_found_by_a_lapsed_relaxation() {
    let config = EngineConfig::default();
    let mut node = raw("old");
    node.overflow = OverflowPolicy {
        was_pushed_out_of_session: true,
        relax_retrieval_until: Some(at(10)),
    };
    // Between the relaxed threshold of 0.63 and the usual one.
    let found = |now: i64| {
        activate(&Similarity, &config, at(now), vec![candidate(&node, 0.65)], Vec::new())
            .raw_nodes
            .len()
    };
    assert_eq!(found(9), 1);
    assert_eq!(found(10), 0);
    assert_eq!(found(500), 0);
}

#[test]
fn activations_take_the_best_of_their_budget() {
    let mut config = EngineConfig::default();
    config.memory.retrieval.similarity_threshold.raw = float(0.0);
    config.memory.activation.top_k_total = 2;
    config.memory.activation.target_ratio.raw = 1;
    config.memory.activation.target_ratio.abstract_nodes = 1;
    let window = config.memory.activation.window();
    assert_eq!(window.search_window, 4);
    assert_eq!(window.raw_budget, 1);
    assert_eq!(window.abstract_budget, 1);
    let candidates = (0..10).map(|i| candidate(&raw("text"), 0.1 * i as f32)).collect();
    let result = activate(&Similarity, &config, at(0), candidates, Vec::new());
    assert!(result.raw_nodes.len() <= 2);
    assert_eq!(result.raw_nodes[0].score, float(0.1 * 9.0));
}

#[test]
fn activations_are_ranked() {
    let mut config = EngineConfig::default();
    config.memory.retrieval.similarity_threshold.raw = float(0.0);
    let candidates = [0.3f32, 0.9, 0.3, 0.7].iter().map(|score| candidate(&raw("t"), *score)).collect();
    let result = select_raw(&Similarity, &config.memory.retrieval, at(0), candidates, 20);
    let scores: Vec<f32> = result.iter().map(|item| f32::from_bits(item.score.bits)).collect();
    assert_eq!(scores, vec![0.9, 0.7, 0.3, 0.3]);
}

#[test]
fn relaxation_ends_at_the_deadline() {
    let mut node = raw("hello");
    node.overflow = OverflowPolicy {
        was_pushed_out_of_session: true,
        relax_retrieval_until: Some(at(100)),
    };
    assert!(overflow_relaxation_active(&node, at(99)));
    assert!(!overflow_relaxation_active(&node, at(100)));
    node.overflow.relax_retrieval_until = None;
    assert!(!overflow_relaxation_active(&node, at(0)));
    node.overflow = OverflowPolicy {
        was_pushed_out_of_session: false,
        relax_retrieval_until: Some(at(100)),
    };
    assert!(!overflow_relaxation_active(&node, at(0)));
    assert_eq!(age_in_seconds(at(10), at(25)), 15);
    assert_eq!(age_in_seconds(at(25), at(10)), 0);
    assert_eq!(age_in_seconds(Timestamp { secs: 0, nanos: 5 }, at(3)), 2);
}

#[test]
fn queries_read_as_one_text() {
    let query = ActivationQuery::new(
        "question",
        vec!["context".to_string()],
        Some("plan".to_string()),
        vec!["hint".to_string()],
    );
    assert_eq!(
        query.as_embedding_input(),
        "user: question\nplan: plan\nrecent: context\ntools: hint"
    );
    let bare = ActivationQuery::new("question", Vec::new(), None, Vec::new());
    assert_eq!(bare.as_embedding_input(), "user: question");
}

#[test]
fn sorting_is_stable_and_loses_nothing() {
    let mut nodes: Vec<RawNode> = Vec::new();
    for secs in [5, 1, 5, 3] {
        let mut node = raw("t");
        node.timestamp = at(secs);
        nodes.push(node);
    }
    let expected = vec![nodes[1].id, nodes[3].id, nodes[0].id, nodes[2].id];
    let sorted: Vec<_> = sort_by(nodes, &TimeOrder).iter().map(|node| node.id).collect();
    assert_eq!(sorted, expected);
    let mut ids: Vec<RawNodeId> = (0..3).map(|_| RawNodeId::new()).collect();
    ids.sort();
    let mut built = vec![ids[0], ids[2]];
    insert_in_order(&mut built, ids[1], &RawNodeIdOrder);
    assert_eq!(built, ids);
    assert_eq!(dedup(vec![ids[0], ids[0], ids[1], ids[0]]), vec![ids[0], ids[1], ids[0]]);
}

#[test]
fn windows_include_both_ends() {
    let window = Window { from: Some(at(2)), to: Some(at(4)) };
    let inside: Vec<bool> = (1..6).map(|secs| window.includes(&at(secs))).collect();
    assert_eq!(inside, vec![false, true, true, true, false]);
    assert!(Window { from: None, to: None }.includes(&at(-9)));
}

#[test]
fn tables_keep_one_value_for_each_key() {
    let mut table: Table<String, RawNodeId> = Table::new();
    let (a, b) = (RawNodeId::new(), RawNodeId::new());
    table.insert("x".to_string(), a);
    table.insert("y".to_string(), b);
    table.insert("x".to_string(), b);
    assert_eq!(table.len(), 2);
    assert_eq!(table.get(&"x".to_string()), Some(&b));
    assert_eq!(table.take(&"x".to_string()), Some(b));
    assert_eq!(table.get(&"x".to_string()), None);
    table.remove(&"z".to_string());
    table.remove(&"y".to_string());
    assert_eq!(table.len(), 0);
    assert_eq!(table.take(&"y".to_string()), None);
}

#[test]
fn texts_are_measured_and_read() {
    assert_eq!(byte_len("aä€😀"), 10);
    assert!(is_blank(" \t\u{2003}\n"));
    assert!(!is_blank(" a "));
    assert_eq!(decimal_text(0), "0");
    assert_eq!(decimal_text(u64::MAX), "18446744073709551615");
    assert_eq!(join(&["a".to_string(), "b".to_string()], ", "), "a, b");
    assert_eq!(trim_trailing_slashes("http://x//"), "http://x");
    assert_eq!(trimmed_characters(" \u{a0}x y\n"), vec!['x', ' ', 'y']);
    assert_eq!(parse_unsigned(&['4', '2']), Some(42));
    assert_eq!(parse_unsigned(&['+']), None);
    assert!(starts_with("run_model", "run"));
    assert!(!starts_with("run", "run_model"));
    assert!(is_text_before("ab", "b"));
    assert!(is_text_before("a", "ab"));
    assert!(!is_text_before("b", "b"));
    assert!(is_text_before("z", "é"));
}

#[test]
fn ratios_are_taken_in_single_precision() {
    for (value, ratio) in [(100usize, 0.3f32), (7, 0.5), (123_456_789, 0.35), (0, 0.9), (33, 1.0)] {
        assert_eq!(scaled(value, &float(ratio)), (value as f32 * ratio) as usize);
    }
    assert!(ratios_sum_to_one(&float(0.4), &float(0.6)));
    assert!(ratios_sum_to_one(&float(0.3), &float(0.7)));
    assert!(!ratios_sum_to_one(&float(0.4), &float(0.5)));
    assert!(float(-1.0).is_less(&float(0.5)));
    assert!(!float(f32::NAN).is_less(&float(0.5)));
    assert!(!float(-0.0).is_less(&float(0.0)));
    assert!(float(f32::INFINITY).is_finite() == false);
}

#[test]
fn spans_are_added_and_described() {
    let sum = Duration::from_millis(1_500).checked_add(Duration::from_millis(700)).unwrap();
    assert_eq!(sum, Duration::from_millis(2_200));
    assert_eq!(Duration::longest().checked_double(), None);
    assert_eq!(Duration::from_millis(1_500).describe(), "1.5s");
    assert_eq!(Duration::from_secs(60).describe(), "60s");
    assert!(Duration::from_secs(0).is_zero());
    assert_eq!(at(10).plus(Duration::from_millis(1_250)).unwrap(), Timestamp { secs: 11, nanos: 250_000_000 });
    assert_eq!(at(0).plus(Duration::longest()), None);
    assert_eq!(at(86_400).day().unwrap(), "19700102");
    let now = Timestamp::now();
    assert!(now.secs > 1_600_000_000);
    assert!(now.is_before(&now.plus_hours(1)));
}

#[test]
fn blank_characters_are_those_of_unicode() {
    for character in '\0'..=char::MAX {
        let text = character.to_string();
        assert_eq!(is_blank(&text), character.is_whitespace(), "{:x}", character as u32);
    }
    let blanks = ('\0'..=char::MAX).filter(|character| is_blank(&character.to_string()));
    assert_eq!(blanks.count(), 25);
}
