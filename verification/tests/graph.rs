use std::sync::Arc;

use takos_agent_engine::config::{ContextBudgetConfig, EngineConfig, ToolsConfig};
use takos_agent_engine::domain::loop_state::{LoopState, LoopStatus};
use takos_agent_engine::domain::raw_node::{RawNode, RawNodeKind};
use takos_agent_engine::engine::context_assembler::ContextAssembler;
use takos_agent_engine::engine::estimator::TokenEstimator;
use takos_agent_engine::engine::execution_graph::{
    ExecutionState, ResolvedRunOptions, RunOptions, SessionRequest,
};
use takos_agent_engine::engine::graph_spec::{
    build_default_execution_graph, build_external_context_execution_graph,
};
use takos_agent_engine::engine::operation_keys::{
    assistant_output_operation_key, tool_result_operation_key, user_input_operation_key,
};
use takos_agent_engine::error::{EngineError, Result};
use takos_agent_engine::float32::Float32;
use takos_agent_engine::ids::{AbstractNodeId, LoopId, SessionId};
use takos_agent_engine::json::JsonValue;
use takos_agent_engine::memory::activation::ActivatedMemory;
use takos_agent_engine::model::runner::ToolCallRequest;
use takos_agent_engine::time::Duration;
use takos_agent_engine::tools::memory_tools::prepare_tool_call_for_config;

fn float(value: f32) -> Float32 {
    Float32::from_bits(value.to_bits())
}

#[derive(Debug, Clone, Copy)]
struct TestTokenEstimator;

impl TokenEstimator for TestTokenEstimator {
    fn estimate_text(&self, text: &str) -> usize {
        text.split_whitespace().count().max(1)
    }
}

#[test]
fn assembler_keeps_context_within_budget() {
    let assembler = ContextAssembler::new(Arc::new(TestTokenEstimator) as Arc<dyn TokenEstimator>);
    let session = vec![
        RawNode::text(
            RawNodeKind::UserUtterance,
            None,
            None,
            "user",
            "one two three",
            float(0.5),
            Vec::new(),
        ),
        RawNode::text(
            RawNodeKind::AssistantUtterance,
            None,
            None,
            "assistant",
            "four five six",
            float(0.5),
            Vec::new(),
        ),
    ];
    let budget = ContextBudgetConfig {
        total_tokens: 32,
        reserve_system: 2,
        reserve_tools: 2,
        reserve_working: 2,
        session_ratio: float(0.5),
        memory_ratio: float(0.5),
    };

    let context = assembler.assemble(&budget, "system", &session, &ActivatedMemory::default(), &[]);
    assert!(context.total_estimated_tokens <= budget.total_tokens);
}

fn checkpoint() -> LoopState {
    let session_id = SessionId::new();
    let loop_id = LoopId::new();
    let state = ExecutionState::from_request(
        SessionRequest {
            session_id: Some(session_id),
            user_message: "checkpoint".to_string(),
            plan: None,
        },
        session_id,
        loop_id,
    );
    state.checkpoint("load_session_view".to_string(), LoopStatus::Running)
}

#[test]
fn checkpoint_rejects_outer_inner_identity_mismatch() {
    let mut checkpoint = checkpoint();
    checkpoint.session_id = SessionId::new();
    assert!(matches!(
        ExecutionState::from_checkpoint(checkpoint),
        Err(EngineError::RecoveryUnsafe(_))
    ));
}

#[test]
fn checkpoint_rejects_graph_and_schema_mismatch() {
    let mut graph_mismatch = checkpoint();
    graph_mismatch.graph_id = "different-graph".to_string();
    assert!(matches!(
        ExecutionState::from_checkpoint(graph_mismatch),
        Err(EngineError::RecoveryUnsafe(_))
    ));

    let mut version_mismatch = checkpoint();
    version_mismatch.checkpoint_version = 99;
    assert!(matches!(
        ExecutionState::from_checkpoint(version_mismatch),
        Err(EngineError::RecoveryUnsafe(_))
    ));
}

#[test]
fn run_options_cannot_disable_or_expand_configured_guards() {
    let config = EngineConfig::default();
    let zero = ResolvedRunOptions::from_config(
        &config,
        RunOptions {
            max_graph_steps: Some(0),
            ..RunOptions::default()
        },
    );
    assert!(zero.validate().is_err());

    let expanded = ResolvedRunOptions::from_config(
        &config,
        RunOptions {
            max_graph_steps: Some(u32::MAX),
            tool_timeout: Some(Duration::longest()),
            maintenance_batch_size: Some(usize::MAX),
            ..RunOptions::default()
        },
    );
    assert_eq!(expanded.max_graph_steps, config.runtime.max_graph_steps);
    assert_eq!(expanded.tool_timeout, config.runtime.tool_timeout());
    assert_eq!(
        expanded.maintenance_batch_size,
        config.runtime.maintenance_batch_size
    );
}

fn json(text: &str) -> JsonValue {
    JsonValue::parse(text).unwrap()
}

fn session_of(arguments: &JsonValue) -> JsonValue {
    arguments.member("session_id").unwrap()
}

#[test]
fn prepare_tool_call_for_config_clamps_memory_tool_args() -> Result<()> {
    let tools = ToolsConfig {
        max_memory_search_top_k: 2,
        max_graph_search_depth: 1,
        max_timeline_search_limit: 3,
        ..ToolsConfig::default()
    };
    let session_id = SessionId::new();

    let semantic = prepare_tool_call_for_config(
        ToolCallRequest {
            id: None,
            name: "semantic_search_memory".to_string(),
            arguments: json("{\"query\": \"topic\", \"target\": \"both\", \"top_k\": 100}"),
        },
        &tools,
        session_id,
    )?;
    assert_eq!(semantic.arguments.member("top_k").unwrap().as_unsigned(), Some(2));
    assert_eq!(
        session_of(&semantic.arguments),
        JsonValue::string(&session_id.to_string()),
        "semantic search must be bound to the run's session"
    );

    let start = AbstractNodeId::new().to_string();
    let graph = prepare_tool_call_for_config(
        ToolCallRequest {
            id: None,
            name: "graph_search_memory".to_string(),
            arguments: json(&format!("{{\"start_node_id\": \"{start}\", \"max_depth\": 100}}")),
        },
        &tools,
        session_id,
    )?;
    assert_eq!(graph.arguments.member("max_depth").unwrap().as_unsigned(), Some(1));
    assert_eq!(graph.arguments.member("max_hits").unwrap().as_unsigned(), Some(128));
    assert_eq!(graph.arguments.member("start_node_id"), Some(JsonValue::string(&start)));

    let timeline = prepare_tool_call_for_config(
        ToolCallRequest {
            id: None,
            name: "timeline_search".to_string(),
            arguments: json("{\"limit\": 100}"),
        },
        &tools,
        session_id,
    )?;
    assert_eq!(timeline.arguments.member("limit").unwrap().as_unsigned(), Some(3));
    assert_eq!(
        session_of(&timeline.arguments),
        JsonValue::string(&session_id.to_string()),
        "timeline search must be bound to the run's session"
    );

    Ok(())
}

#[test]
fn prepare_tool_call_overrides_model_supplied_session() -> Result<()> {
    let tools = ToolsConfig::default();
    let run_session = SessionId::new();
    let attacker_session = SessionId::new();

    let timeline = prepare_tool_call_for_config(
        ToolCallRequest {
            id: None,
            name: "timeline_search".to_string(),
            arguments: json(&format!(
                "{{\"session_id\": \"{}\", \"limit\": 10}}",
                attacker_session.to_string()
            )),
        },
        &tools,
        run_session,
    )?;
    assert_eq!(
        session_of(&timeline.arguments),
        JsonValue::string(&run_session.to_string())
    );
    assert_ne!(
        session_of(&timeline.arguments),
        JsonValue::string(&attacker_session.to_string())
    );
    Ok(())
}

fn refused(name: &str, arguments: &str, tools: &ToolsConfig) -> String {
    let call = ToolCallRequest {
        id: None,
        name: name.to_string(),
        arguments: json(arguments),
    };
    match prepare_tool_call_for_config(call, tools, SessionId::new()) {
        Err(EngineError::Tool(message)) => message,
        other => panic!("expected a tool error, got {other:?}"),
    }
}

#[test]
fn prepared_calls_are_refused_with_a_reason() {
    let mut tools = ToolsConfig::default();
    assert_eq!(
        refused("provenance_lookup", "[1]", &tools),
        "invalid provenance args: arguments must be an object"
    );
    assert_eq!(
        refused("graph_search_memory", "{\"max_hits\": -1}", &tools),
        "invalid graph search args: max_hits must be an unsigned integer"
    );
    assert_eq!(
        refused("semantic_search_memory", "{\"top_k\": \"9\"}", &tools),
        "invalid semantic search args: top_k must be an unsigned integer"
    );
    tools.timeline_search = false;
    assert_eq!(
        refused("timeline_search", "{}", &tools),
        "tool timeline_search is disabled by config"
    );
}

#[test]
fn prepared_numbers_stay_within_one_and_their_bound() {
    let tools = ToolsConfig {
        max_provenance_raw_nodes: 7,
        ..ToolsConfig::default()
    };
    for (given, expected) in [("0", 1), ("1", 1), ("6", 6), ("7", 7), ("8", 7)] {
        let call = ToolCallRequest {
            id: Some("c".to_string()),
            name: "provenance_lookup".to_string(),
            arguments: json(&format!("{{\"limit\": {given}, \"node_id\": \"n\"}}")),
        };
        let prepared = prepare_tool_call_for_config(call, &tools, SessionId::new()).unwrap();
        assert_eq!(prepared.arguments.member("limit").unwrap().as_unsigned(), Some(expected));
        assert_eq!(prepared.arguments.member("node_id"), Some(JsonValue::string("n")));
        assert_eq!(prepared.id.as_deref(), Some("c"));
    }
    let other = ToolCallRequest {
        id: None,
        name: "remote_tool".to_string(),
        arguments: json("[1, 2]"),
    };
    let untouched = prepare_tool_call_for_config(other, &tools, SessionId::new()).unwrap();
    assert_eq!(untouched.arguments.to_string(), "[1,2]");
}

#[test]
fn default_graph_topology_is_stable() {
    let default = build_default_execution_graph();
    assert_eq!(default.node_count(), 14);
    assert_eq!(default.edge_count(), 15);
}

#[test]
fn external_context_graph_is_the_minimal_model_tool_loop() {
    let graph = build_external_context_execution_graph();
    assert_eq!(graph.node_count(), 5);
    assert_eq!(graph.edge_count(), 6);
}

#[test]
fn default_graph_contains_expected_nodes() {
    let _graph = build_default_execution_graph();
}

#[test]
fn operation_key_formats_are_stable() {
    let loop_id = LoopId::new();

    assert_eq!(
        user_input_operation_key(loop_id),
        format!("loop:{}:user_input", loop_id.to_string())
    );
    assert_eq!(
        tool_result_operation_key(loop_id, 2, 3, "timeline_search"),
        format!("loop:{}:tool:2:3:timeline_search", loop_id.to_string())
    );
    assert_eq!(
        assistant_output_operation_key(loop_id),
        format!("loop:{}:assistant_output", loop_id.to_string())
    );
}

#[test]
fn sessions_that_a_model_names_make_no_difference() {
    let tools = ToolsConfig::default();
    let run_session = SessionId::new();
    for (name, rest) in [
        ("timeline_search", "\"limit\":10"),
        ("semantic_search_memory", "\"query\":\"topic\",\"target\":\"both\",\"top_k\":3"),
        ("provenance_lookup", "\"node_id\":\"n\""),
    ] {
        let prepare = |given: &str| {
            let arguments = format!("{{\"session_id\":\"{given}\",{rest}}}");
            prepare_tool_call_for_config(
                ToolCallRequest {
                    id: None,
                    name: name.to_string(),
                    arguments: JsonValue::parse(&arguments).unwrap(),
                },
                &tools,
                run_session,
            )
        };
        let first = prepare("");
        let second = prepare(&SessionId::new().to_string());
        assert_eq!(first.is_ok(), second.is_ok());
        if let (Ok(first), Ok(second)) = (first, second) {
            assert_eq!(first, second);
        }
    }
}

#[test]
fn values_can_be_nested_too_deeply_to_be_read() {
    let nested = |depth: usize| format!("{}1{}", "[".repeat(depth), "]".repeat(depth));
    let object = JsonValue::parse("{\"a\":1}").unwrap();
    let deep = JsonValue::parse(&nested(126)).unwrap();
    let held = object.with_member("b", &deep).unwrap();
    assert_eq!(held.member("b"), Some(deep));
    let deepest = JsonValue::parse(&nested(127)).unwrap();
    let held = object.with_member("b", &deepest).unwrap();
    assert_eq!(held.member("a"), None);
    assert_eq!(held.member("b"), None);
    let plain = object.with_member("b", &JsonValue::unsigned(7)).unwrap();
    assert_eq!(plain.member("a"), Some(JsonValue::unsigned(1)));
    assert_eq!(plain.member("b"), Some(JsonValue::unsigned(7)));
    let eight = JsonValue::unsigned(8);
    assert_eq!(plain.with_member("b", &eight), object.with_member("b", &eight));
}

#[test]
fn sessions_that_are_no_text_are_refused() {
    let tools = ToolsConfig::default();
    let run_session = SessionId::new();
    let prepare = |given: &str| {
        let arguments = format!("{{\"limit\":10,\"session_id\":{given}}}");
        prepare_tool_call_for_config(
            ToolCallRequest {
                id: None,
                name: "timeline_search".to_string(),
                arguments: JsonValue::parse(&arguments).unwrap(),
            },
            &tools,
            run_session,
        )
    };
    for given in ["5", "true", "[\"a\"]", "{\"id\":\"a\"}", "-1.5"] {
        match prepare(given) {
            Err(EngineError::Tool(message)) => {
                assert_eq!(message, "invalid timeline args: session_id must be a string");
            }
            other => panic!("unexpected {other:?}"),
        }
    }
    let bound = JsonValue::string(&run_session.to_string());
    for given in ["null", "\"\"", "\"another\""] {
        let prepared = prepare(given).unwrap();
        assert_eq!(prepared.arguments.member("session_id"), Some(bound.clone()));
    }
}
