use takos_agent_engine::domain::abstract_node::{
    AbstractNode, AbstractNodeMetadata, EntityRef, GraphFragment, References,
};
use takos_agent_engine::domain::loop_state::{LoopState, LoopStatus};
use takos_agent_engine::domain::raw_node::{
    DistillationState, OverflowPolicy, RawContent, RawNode, RawNodeKind, RawNodeMetadata,
    Visibility,
};
use takos_agent_engine::domain::relation::Relation;
use takos_agent_engine::domain::session::{Session, SessionPlan};
use takos_agent_engine::engine::execution_graph::{ExecutionState, SessionRequest};
use takos_agent_engine::float32::Float32;
use takos_agent_engine::ids::{AbstractNodeId, LoopId, RawNodeId, SessionId};
use takos_agent_engine::json::JsonValue;
use takos_agent_engine::time::Timestamp;

fn float(value: f32) -> Float32 {
    Float32::from_bits(value.to_bits())
}

fn number(value: Float32) -> f32 {
    f32::from_bits(value.bits)
}

fn make_basic_node() -> AbstractNode {
    AbstractNode::new(
        "Test Title",
        "Test summary content",
        References::default(),
        GraphFragment::default(),
        AbstractNodeMetadata::default(),
    )
}

#[test]
fn new_node_has_correct_fields() {
    let node = make_basic_node();
    assert_eq!(node.title, "Test Title");
    assert_eq!(node.summary, "Test summary content");
    assert_eq!(node.version, 1);
    assert!(node.operation_key.is_none());
}

#[test]
fn new_node_has_embedding_ref() {
    let node = make_basic_node();
    assert!(node.embedding_ref.0.starts_with("abstract:"));
    assert!(node.embedding_ref.0.contains(&node.id.to_string()));
}

#[test]
fn abstract_node_default_metadata() {
    let meta = AbstractNodeMetadata::default();
    assert_eq!(meta.abstraction_level, 1);
    assert!((number(meta.confidence) - 0.5).abs() < f32::EPSILON);
    assert!((number(meta.importance) - 0.5).abs() < f32::EPSILON);
    assert!(meta.tags.is_empty());
}

#[test]
fn custom_metadata() {
    let meta = AbstractNodeMetadata {
        abstraction_level: 3,
        confidence: float(0.9),
        importance: float(0.8),
        tags: vec!["important".to_string()],
    };
    let node = AbstractNode::new(
        "Custom",
        "summary",
        References::default(),
        GraphFragment::default(),
        meta,
    );
    assert_eq!(node.metadata.abstraction_level, 3);
    assert!((number(node.metadata.confidence) - 0.9).abs() < f32::EPSILON);
}

#[test]
fn version_incrementing() {
    let mut node = make_basic_node();
    assert_eq!(node.version, 1);
    node.version += 1;
    assert_eq!(node.version, 2);
    node.version += 1;
    assert_eq!(node.version, 3);
}

#[test]
fn relation_management_via_graph_fragment() {
    let relation = Relation {
        subject: "entity-a".to_string(),
        predicate: "related_to".to_string(),
        object: "entity-b".to_string(),
        weight: float(0.9),
        provenance_raw_node_ids: Vec::new(),
    };
    let entity_a = EntityRef {
        id: "entity-a".to_string(),
        label: "Entity A".to_string(),
    };
    let entity_b = EntityRef {
        id: "entity-b".to_string(),
        label: "Entity B".to_string(),
    };
    let graph = GraphFragment {
        entities: vec![entity_a.clone(), entity_b.clone()],
        relations: vec![relation.clone()],
    };
    let node = AbstractNode::new(
        "With graph",
        "summary",
        References::default(),
        graph,
        AbstractNodeMetadata::default(),
    );
    assert_eq!(node.graph.entities.len(), 2);
    assert_eq!(node.graph.relations.len(), 1);
    assert_eq!(node.graph.relations[0].predicate, "related_to");
}

#[test]
fn references_management() {
    let raw_id = RawNodeId::new();
    let abstract_id = AbstractNodeId::new();
    let refs = References {
        abstract_node_ids: vec![abstract_id],
        raw_node_ids: vec![raw_id],
    };
    let node = AbstractNode::new(
        "Referenced",
        "summary",
        refs,
        GraphFragment::default(),
        AbstractNodeMetadata::default(),
    );
    assert_eq!(node.references.raw_node_ids.len(), 1);
    assert_eq!(node.references.abstract_node_ids.len(), 1);
    assert_eq!(node.references.raw_node_ids[0], raw_id);
    assert_eq!(node.references.abstract_node_ids[0], abstract_id);
}

#[test]
fn abstract_node_context_text_format() {
    let node = make_basic_node();
    let ctx = node.context_text();
    assert_eq!(ctx, "Test Title: Test summary content");
}

#[test]
fn abstract_node_with_operation_key() {
    let node = make_basic_node().with_operation_key("loop:123:abstract:primary");
    assert_eq!(
        node.operation_key,
        Some("loop:123:abstract:primary".to_string())
    );
}

#[test]
fn default_references_are_empty() {
    let refs = References::default();
    assert!(refs.abstract_node_ids.is_empty());
    assert!(refs.raw_node_ids.is_empty());
}

#[test]
fn default_graph_fragment_is_empty() {
    let graph = GraphFragment::default();
    assert!(graph.entities.is_empty());
    assert!(graph.relations.is_empty());
}

#[test]
fn unique_ids_per_node() {
    let a = make_basic_node();
    let b = make_basic_node();
    assert_ne!(a.id, b.id);
}

fn make_loop_state() -> LoopState {
    let session_id = SessionId::new();
    let loop_id = LoopId::new();
    let request = SessionRequest {
        session_id: Some(session_id),
        user_message: "test goal".to_string(),
        plan: None,
    };
    ExecutionState::from_request(request, session_id, loop_id)
        .checkpoint("start".to_string(), LoopStatus::Running)
}

#[test]
fn initial_status_is_running() {
    let state = make_loop_state();
    assert_eq!(state.status, LoopStatus::Running);
}

#[test]
fn running_to_paused() {
    let mut state = make_loop_state();
    assert_eq!(state.status, LoopStatus::Running);
    state.status = LoopStatus::Paused;
    assert_eq!(state.status, LoopStatus::Paused);
}

#[test]
fn paused_to_running() {
    let mut state = make_loop_state();
    state.status = LoopStatus::Paused;
    state.status = LoopStatus::Running;
    assert_eq!(state.status, LoopStatus::Running);
}

#[test]
fn running_to_finished() {
    let mut state = make_loop_state();
    state.status = LoopStatus::Finished;
    assert_eq!(state.status, LoopStatus::Finished);
}

#[test]
fn running_to_cancelled() {
    let mut state = make_loop_state();
    state.status = LoopStatus::Cancelled;
    assert_eq!(state.status, LoopStatus::Cancelled);
}

#[test]
fn running_to_timed_out() {
    let mut state = make_loop_state();
    state.status = LoopStatus::TimedOut;
    assert_eq!(state.status, LoopStatus::TimedOut);
}

#[test]
fn running_to_failed() {
    let mut state = make_loop_state();
    state.status = LoopStatus::Failed;
    assert_eq!(state.status, LoopStatus::Failed);
}

#[test]
fn paused_to_finished() {
    let mut state = make_loop_state();
    state.status = LoopStatus::Paused;
    state.status = LoopStatus::Finished;
    assert_eq!(state.status, LoopStatus::Finished);
}

#[test]
fn text_constructor_user_utterance() {
    let node = RawNode::text(
        RawNodeKind::UserUtterance,
        None,
        None,
        "user",
        "hello world",
        float(0.8),
        vec!["greeting".to_string()],
    );
    assert_eq!(node.kind, RawNodeKind::UserUtterance);
    assert_eq!(node.content, RawContent::Text("hello world".to_string()));
    assert_eq!(node.metadata.source, "user");
    assert!((number(node.metadata.importance) - 0.8).abs() < f32::EPSILON);
    assert_eq!(node.metadata.tags, vec!["greeting".to_string()]);
    assert_eq!(node.metadata.visibility, Visibility::Normal);
    assert_eq!(node.distillation_state, DistillationState::Undistilled);
    assert!(!node.overflow.was_pushed_out_of_session);
    assert!(node.overflow.relax_retrieval_until.is_none());
    assert!(node.session_id.is_none());
    assert!(node.loop_id.is_none());
    assert!(node.operation_key.is_none());
}

#[test]
fn text_constructor_assistant_utterance() {
    let sid = SessionId::new();
    let lid = LoopId::new();
    let node = RawNode::text(
        RawNodeKind::AssistantUtterance,
        Some(sid),
        Some(lid),
        "assistant",
        "I can help",
        float(0.6),
        Vec::new(),
    );
    assert_eq!(node.kind, RawNodeKind::AssistantUtterance);
    assert_eq!(node.session_id, Some(sid));
    assert_eq!(node.loop_id, Some(lid));
}

#[test]
fn text_constructor_tool_result() {
    let node = RawNode::text(
        RawNodeKind::ToolResult,
        None,
        None,
        "search_tool",
        "found 3 results",
        float(0.7),
        vec!["tool".to_string()],
    );
    assert_eq!(node.kind, RawNodeKind::ToolResult);
    assert_eq!(node.metadata.source, "search_tool");
}

#[test]
fn text_constructor_note() {
    let node = RawNode::text(
        RawNodeKind::Note,
        None,
        None,
        "system",
        "internal note",
        float(0.3),
        Vec::new(),
    );
    assert_eq!(node.kind, RawNodeKind::Note);
}

#[test]
fn text_constructor_event() {
    let node = RawNode::text(
        RawNodeKind::Event,
        None,
        None,
        "system",
        "session started",
        float(0.5),
        Vec::new(),
    );
    assert_eq!(node.kind, RawNodeKind::Event);
}

#[test]
fn json_constructor() {
    let value = JsonValue::parse("{\"key\": \"value\", \"count\": 42}").unwrap();
    let node = RawNode::json(
        RawNodeKind::ToolResult,
        None,
        None,
        "api",
        value.clone(),
        float(0.9),
        vec!["json".to_string()],
    );
    assert_eq!(node.kind, RawNodeKind::ToolResult);
    assert_eq!(node.content, RawContent::Json(value));
    assert_eq!(node.metadata.source, "api");
    assert!((number(node.metadata.importance) - 0.9).abs() < f32::EPSILON);
}

#[test]
fn content_text_for_text_node() {
    let node = RawNode::text(
        RawNodeKind::UserUtterance,
        None,
        None,
        "user",
        "hello",
        float(0.5),
        Vec::new(),
    );
    assert_eq!(node.content_text(), "hello");
}

#[test]
fn content_text_for_json_node() {
    let value = JsonValue::parse("{\"answer\": 42}").unwrap();
    let node = RawNode::json(
        RawNodeKind::ToolResult,
        None,
        None,
        "tool",
        value.clone(),
        float(0.5),
        Vec::new(),
    );
    assert_eq!(node.content_text(), value.to_string());
    assert_eq!(node.content_text(), "{\"answer\":42}");
}

#[test]
fn raw_node_context_text_format() {
    let node = RawNode::text(
        RawNodeKind::UserUtterance,
        None,
        None,
        "user",
        "hi",
        float(0.5),
        Vec::new(),
    );
    let ctx = node.context_text();
    assert!(ctx.starts_with("UserUtterance: "));
    assert!(ctx.contains("hi"));
}

#[test]
fn raw_node_with_operation_key() {
    let node = RawNode::text(
        RawNodeKind::UserUtterance,
        None,
        None,
        "user",
        "msg",
        float(0.5),
        Vec::new(),
    )
    .with_operation_key("op-123");
    assert_eq!(node.operation_key, Some("op-123".to_string()));
}

#[test]
fn embedding_ref_is_set() {
    let node = RawNode::text(
        RawNodeKind::UserUtterance,
        None,
        None,
        "user",
        "msg",
        float(0.5),
        Vec::new(),
    );
    assert!(node.embedding_ref.0.starts_with("raw:"));
    assert!(node.embedding_ref.0.contains(&node.id.to_string()));
}

#[test]
fn raw_node_default_metadata() {
    let meta = RawNodeMetadata::default();
    assert_eq!(meta.source, "system");
    assert!(meta.tags.is_empty());
    assert!((number(meta.importance) - 0.5).abs() < f32::EPSILON);
    assert_eq!(meta.visibility, Visibility::Normal);
}

#[test]
fn distillation_state_transitions() {
    let mut node = RawNode::text(
        RawNodeKind::UserUtterance,
        None,
        None,
        "user",
        "msg",
        float(0.5),
        Vec::new(),
    );
    assert_eq!(node.distillation_state, DistillationState::Undistilled);

    node.distillation_state = DistillationState::PartiallyDistilled;
    assert_eq!(
        node.distillation_state,
        DistillationState::PartiallyDistilled
    );

    node.distillation_state = DistillationState::Distilled;
    assert_eq!(node.distillation_state, DistillationState::Distilled);
}

#[test]
fn overflow_policy_default() {
    let policy = OverflowPolicy::default();
    assert!(!policy.was_pushed_out_of_session);
    assert!(policy.relax_retrieval_until.is_none());
}

#[test]
fn create_relation() {
    let relation = Relation {
        subject: "entity-a".to_string(),
        predicate: "causes".to_string(),
        object: "entity-b".to_string(),
        weight: float(0.85),
        provenance_raw_node_ids: Vec::new(),
    };
    assert_eq!(relation.subject, "entity-a");
    assert_eq!(relation.predicate, "causes");
    assert_eq!(relation.object, "entity-b");
    assert!((number(relation.weight) - 0.85).abs() < f32::EPSILON);
    assert!(relation.provenance_raw_node_ids.is_empty());
}

#[test]
fn relation_with_provenance() {
    let raw_id_1 = RawNodeId::new();
    let raw_id_2 = RawNodeId::new();
    let relation = Relation {
        subject: "user".to_string(),
        predicate: "asked".to_string(),
        object: "question".to_string(),
        weight: float(1.0),
        provenance_raw_node_ids: vec![raw_id_1, raw_id_2],
    };
    assert_eq!(relation.provenance_raw_node_ids.len(), 2);
    assert_eq!(relation.provenance_raw_node_ids[0], raw_id_1);
    assert_eq!(relation.provenance_raw_node_ids[1], raw_id_2);
}

#[test]
fn weight_bounds_zero() {
    let relation = Relation {
        subject: "a".to_string(),
        predicate: "b".to_string(),
        object: "c".to_string(),
        weight: float(0.0),
        provenance_raw_node_ids: Vec::new(),
    };
    assert!((number(relation.weight) - 0.0).abs() < f32::EPSILON);
}

#[test]
fn weight_bounds_one() {
    let relation = Relation {
        subject: "a".to_string(),
        predicate: "b".to_string(),
        object: "c".to_string(),
        weight: float(1.0),
        provenance_raw_node_ids: Vec::new(),
    };
    assert!((number(relation.weight) - 1.0).abs() < f32::EPSILON);
}

#[test]
fn weight_fractional() {
    let relation = Relation {
        subject: "a".to_string(),
        predicate: "b".to_string(),
        object: "c".to_string(),
        weight: float(0.42),
        provenance_raw_node_ids: Vec::new(),
    };
    assert!((number(relation.weight) - 0.42).abs() < f32::EPSILON);
}

#[test]
fn equality() {
    let id = RawNodeId::new();
    let a = Relation {
        subject: "s".to_string(),
        predicate: "p".to_string(),
        object: "o".to_string(),
        weight: float(0.5),
        provenance_raw_node_ids: vec![id],
    };
    let b = a.clone();
    assert_eq!(a, b);
}

#[test]
fn session_creation() {
    let session = Session::new("Find all bugs in the codebase");
    assert_eq!(session.goal, "Find all bugs in the codebase");
    assert!(session.created_at <= Timestamp::now());
}

#[test]
fn session_has_unique_id() {
    let a = Session::new("goal a");
    let b = Session::new("goal b");
    assert_ne!(a.id, b.id);
}

#[test]
fn session_goal_from_string_type() {
    let goal = String::from("dynamic goal");
    let session = Session::new(goal);
    assert_eq!(session.goal, "dynamic goal");
}

#[test]
fn session_created_at_is_recent() {
    let before = Timestamp::now();
    let session = Session::new("goal");
    let after = Timestamp::now();
    assert!(session.created_at >= before);
    assert!(session.created_at <= after);
}

#[test]
fn session_plan_creation() {
    let plan = SessionPlan {
        summary: "Step 1: analyze. Step 2: fix.".to_string(),
    };
    assert_eq!(plan.summary, "Step 1: analyze. Step 2: fix.");
}
