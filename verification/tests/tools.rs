use takos_agent_engine::config::{EngineConfig, ToolsConfig};
use takos_agent_engine::domain::raw_node::{RawContent, RawNode, RawNodeKind};
use takos_agent_engine::engine::estimator::{estimate_conversation_message, TokenEstimator};
use takos_agent_engine::engine::execution_graph::{
    ExecutionProfile, ExecutionState, SessionRequest,
};
use takos_agent_engine::engine::operation_keys::tool_result_operation_key;
use takos_agent_engine::engine::tool_budget::{
    bound_tool_calls_for_model, clamp_tool_result_for_model, clone_emptied,
    minimum_tool_result_message_tokens, truncate_text_to_token_budget, validate_tool_call_payload,
};
use takos_agent_engine::engine::tool_phases::{
    round_ending, tool_outcome, tool_phases, PreparedToolCall, TimedToolOutcome,
};
use takos_agent_engine::engine::tool_results::{
    close_round, decode_tool_result_from_raw, push_raw_node_into_state, record_tool_result,
    returned_result, show_result, tool_result_node,
};
use takos_agent_engine::engine::tool_round::{
    open_round, plan_round, prepare_round_call, spend_messages, used_call_ids,
};
use takos_agent_engine::engine::tool_storage::{bound_tool_result_for_storage, truncate_utf8};
use takos_agent_engine::error::{EngineError, Result};
use takos_agent_engine::float32::Float32;
use takos_agent_engine::ids::{LoopId, SessionId};
use takos_agent_engine::json::JsonValue;
use takos_agent_engine::model::runner::{
    ConversationMessage, ConversationRole, ToolCallRequest,
};
use takos_agent_engine::time::{Duration, Timestamp};
use takos_agent_engine::tools::executor::{ToolCallResult, ToolExecutionKind};

/// One token for each character.
#[derive(Debug, Clone, Copy)]
struct CharEstimator;

impl TokenEstimator for CharEstimator {
    fn estimate_text(&self, text: &str) -> usize {
        text.chars().count()
    }
}

fn call(id: Option<&str>, name: &str, arguments: &str) -> ToolCallRequest {
    ToolCallRequest {
        id: id.map(|text| text.to_string()),
        name: name.to_string(),
        arguments: JsonValue::parse(arguments).unwrap(),
    }
}

fn result(id: Option<&str>, name: &str, content: &str, summary: &str) -> ToolCallResult {
    ToolCallResult {
        tool_call_id: id.map(|text| text.to_string()),
        name: name.to_string(),
        content: JsonValue::parse(content).unwrap(),
        summary: summary.to_string(),
    }
}

fn message(
    role: ConversationRole,
    content: &str,
    id: Option<&str>,
    calls: Vec<ToolCallRequest>,
) -> ConversationMessage {
    ConversationMessage {
        role,
        content: content.to_string(),
        tool_call_id: id.map(|text| text.to_string()),
        tool_calls: calls,
    }
}

fn state() -> ExecutionState {
    let session_id = SessionId::new();
    ExecutionState::from_request(
        SessionRequest {
            session_id: Some(session_id),
            user_message: "hello".to_string(),
            plan: None,
        },
        session_id,
        LoopId::new(),
    )
}

fn tool_message<T: std::fmt::Debug>(outcome: Result<T>) -> String {
    match outcome {
        Err(EngineError::Tool(text)) => text,
        other => panic!("unexpected {other:?}"),
    }
}

fn configuration_message<T: std::fmt::Debug>(outcome: Result<T>) -> String {
    match outcome {
        Err(EngineError::Configuration(text)) => text,
        other => panic!("unexpected {other:?}"),
    }
}

fn prepared(index: usize, kind: ToolExecutionKind, cached: Option<RawNode>) -> PreparedToolCall {
    PreparedToolCall {
        index,
        execution_kind: kind,
        call: call(Some("call-1"), "lookup", "{}"),
        operation_key: "op-key".to_string(),
        cached,
    }
}

#[test]
fn json_values_are_kept_compact() {
    let value = JsonValue::parse(" { \"b\" : [1, 2] , \"a\" : \"x\\ny\" } ").unwrap();
    assert_eq!(value.as_str(), "{\"a\":\"x\\ny\",\"b\":[1,2]}");
    assert!(JsonValue::parse("{").unwrap_err().starts_with("EOF while parsing an object"));
    assert_eq!(JsonValue::string("a\"b\\\u{1}").as_str(), "\"a\\\"b\\\\\\u0001\"");
    assert_eq!(value.member("b").unwrap().as_str(), "[1,2]");
    assert!(value.member("c").is_none());
    assert_eq!(value.member("a").unwrap().as_text().unwrap(), "x\ny");
    assert_eq!(value.member("b").unwrap().as_text(), None);
    let more = value.with_member("n", &JsonValue::unsigned(7)).unwrap();
    assert_eq!(more.as_str(), "{\"a\":\"x\\ny\",\"b\":[1,2],\"n\":7}");
    assert_eq!(more.member("n").unwrap().as_unsigned(), Some(7));
    assert_eq!(more.member("a").unwrap().as_unsigned(), None);
    assert!(JsonValue::unsigned(7).with_member("n", &JsonValue::unsigned(1)).is_none());
    assert_eq!(JsonValue::empty_object().as_str(), "{}");
    assert_eq!(JsonValue::error_report("no \"x\"").as_str(), "{\"error\":\"no \\\"x\\\"\"}");
    assert_eq!(JsonValue::truncation_flag().as_str(), "{\"truncated\":true}");
    assert_eq!(
        JsonValue::truncation_marker("ab").as_str(),
        "{\"preview\":\"ab\",\"truncated\":true}"
    );
}

#[test]
fn texts_are_cut_to_the_longest_prefix_that_fits() {
    assert_eq!(truncate_text_to_token_budget("hello", &CharEstimator, 3), "hel");
    assert_eq!(truncate_text_to_token_budget("hello", &CharEstimator, 5), "hello");
    assert_eq!(truncate_text_to_token_budget("hello", &CharEstimator, 0), "");
    assert_eq!(truncate_text_to_token_budget("", &CharEstimator, 4), "");
    assert_eq!(truncate_text_to_token_budget("äöüß", &CharEstimator, 2), "äö");
}

#[test]
fn calls_are_shown_within_their_budget() {
    let calls = vec![call(Some("a"), "one", "{\"k\":\"01234567890123456789\"}"), call(Some("b"), "two", "{}")];
    let empty = message(ConversationRole::Assistant, "", None, clone_emptied(&calls));
    let minimum = estimate_conversation_message(&CharEstimator, &empty);
    let refused = bound_tool_calls_for_model(&calls, &CharEstimator, minimum - 1);
    assert_eq!(
        configuration_message(refused),
        format!(
            "tool-call transcript needs at least {minimum} tokens but only {} were allocated",
            minimum - 1
        )
    );
    let bare = bound_tool_calls_for_model(&calls, &CharEstimator, minimum).unwrap();
    assert_eq!(bare[0].arguments.as_str(), "{}");
    let flagged = bound_tool_calls_for_model(&calls, &CharEstimator, minimum + 33).unwrap();
    assert_eq!(flagged[0].arguments.as_str(), "{\"truncated\":true}");
    let whole = bound_tool_calls_for_model(&calls, &CharEstimator, minimum + 200).unwrap();
    assert_eq!(whole[0].arguments.as_str(), "{\"k\":\"01234567890123456789\"}");
    for shown in [&bare, &flagged, &whole] {
        assert_eq!(shown[0].id.as_deref(), Some("a"));
        assert_eq!(shown[1].name, "two");
    }
}

#[test]
fn shortest_answers_are_counted() {
    let answered = minimum_tool_result_message_tokens(&call(Some("abc"), "n", "{}"), &CharEstimator);
    let expected = estimate_conversation_message(
        &CharEstimator,
        &message(ConversationRole::Tool, "{}", Some("abc"), Vec::new()),
    );
    assert_eq!(answered.unwrap(), expected);
    assert_eq!(
        tool_message(minimum_tool_result_message_tokens(&call(None, "n", "{}"), &CharEstimator)),
        "tool call n has no correlation id"
    );
}

#[test]
fn contents_are_shown_within_their_budget() {
    let long = format!("\"{}\"", "x".repeat(60));
    let mut left = 100;
    let whole = clamp_tool_result_for_model(
        result(None, "n", &long, "s"),
        &CharEstimator,
        &mut left,
    );
    assert_eq!(whole.content.as_str(), long);
    assert_eq!(left, 100 - long.len());
    let mut left = 40;
    let cut = clamp_tool_result_for_model(result(None, "n", &long, "s"), &CharEstimator, &mut left);
    assert_eq!(cut.content.as_str(), "{\"preview\":\"\\\"xxxxxxx\",\"truncated\":true}");
    assert_eq!(left, 0);
    let mut left = 10;
    let none = clamp_tool_result_for_model(result(None, "n", &long, "s"), &CharEstimator, &mut left);
    assert_eq!(none.content.as_str(), "{}");
    assert_eq!(left, 8);
}

#[test]
fn oversized_calls_are_refused() {
    let mut tools = ToolsConfig::default();
    tools.max_tool_argument_bytes = 5;
    assert!(validate_tool_call_payload(&call(Some("id"), "n", "[1,2]"), &tools).is_ok());
    assert_eq!(
        tool_message(validate_tool_call_payload(&call(Some("id"), "n", "[1,23]"), &tools)),
        "tool n arguments use 6 bytes, exceeding max_tool_argument_bytes=5"
    );
    let long = "n".repeat(257);
    for refused in [call(Some("id"), &long, "1"), call(Some(&long), "n", "1")] {
        assert_eq!(
            tool_message(validate_tool_call_payload(&refused, &tools)),
            "tool call id/name exceeds the 256-byte boundary"
        );
    }
    assert!(validate_tool_call_payload(&call(None, &"n".repeat(256), "1"), &tools).is_ok());
}

#[test]
fn texts_are_cut_between_characters() {
    assert_eq!(truncate_utf8("aäb", 2), "a");
    assert_eq!(truncate_utf8("aäb", 3), "aä");
    assert_eq!(truncate_utf8("aäb", 9), "aäb");
    assert_eq!(truncate_utf8("aäb", 0), "");
}

#[test]
fn results_are_cut_for_storage() {
    let mut small = result(Some("id"), "n", "{\"a\":1}", "fine");
    let encoded = small.encode();
    assert_eq!(
        encoded,
        "{\"content\":{\"a\":1},\"name\":\"n\",\"summary\":\"fine\",\"tool_call_id\":\"id\"}"
    );
    bound_tool_result_for_storage(&mut small, encoded.len()).unwrap();
    assert_eq!(small.encode(), encoded);

    let long = format!("\"{}\"", "y".repeat(500));
    let mut cut = result(Some("id"), "n", &long, &"s".repeat(100));
    bound_tool_result_for_storage(&mut cut, 200).unwrap();
    assert_eq!(cut.encode().len(), 200);
    assert_eq!(cut.summary, "s".repeat(25));
    assert!(cut.content.as_str().starts_with("{\"preview\":\"\\\"yyy"));
    assert!(cut.content.as_str().ends_with("\",\"truncated\":true}"));

    let mut hopeless = result(Some("id"), "n", &long, "summary");
    assert_eq!(
        configuration_message(bound_tool_result_for_storage(&mut hopeless, 40)),
        "max_tool_result_bytes=40 is too small for the validated tool result envelope"
    );
}

#[test]
fn rounds_have_a_cap_on_calls() {
    let mut config = EngineConfig::default();
    config.runtime.max_tool_calls_per_round = 2;
    let mut state = state();
    state.pending_tool_calls = (0..3).map(|_| call(None, "n", "{}")).collect();
    assert_eq!(
        tool_message(open_round(&state, &config)),
        "checkpoint contains 3 tool calls, exceeding max_tool_calls_per_round=2"
    );
    state.pending_tool_calls.pop();
    state.tool_rounds_completed = 4;
    assert_eq!(open_round(&state, &config).unwrap(), 5);
    config.runtime.max_tool_calls_per_round = 0;
    state.pending_tool_calls.pop();
    assert!(open_round(&state, &config).is_ok());
    state.tool_rounds_completed = u32::MAX;
    assert_eq!(open_round(&state, &config).unwrap(), u32::MAX);
}

#[test]
fn call_ids_are_taken_once() {
    let state = state();
    let earlier = vec![message(
        ConversationRole::Assistant,
        "",
        None,
        vec![call(Some("call-1"), "n", "{}"), call(None, "n", "{}")],
    )];
    let mut used = used_call_ids(&earlier);
    assert_eq!(used, vec!["call-1".to_string()]);
    let tools = ToolsConfig::default();
    let mut prepare = |request: ToolCallRequest, index: usize, cancelled: bool| {
        prepare_round_call(
            request,
            ExecutionProfile::ExternalContext,
            &tools,
            state.session_id,
            state.loop_id,
            2,
            index,
            &mut used,
            cancelled,
        )
    };
    assert_eq!(
        tool_message(prepare(call(Some("call-1"), "n", "{}"), 0, false)),
        "tool call n reused correlation id call-1"
    );
    assert_eq!(
        tool_message(prepare(call(Some("  "), "n", "{}"), 0, false)),
        "tool call n has an empty correlation id"
    );
    assert_eq!(
        tool_message(prepare(call(Some("x"), " ", "{}"), 0, false)),
        "tool call name must not be empty"
    );
    assert!(matches!(
        prepare(call(Some("x"), "n", "{}"), 0, true),
        Err(EngineError::Cancelled)
    ));
    let named = prepare(call(None, "n", "{}"), 3, false).unwrap();
    assert_eq!(
        named.id,
        Some(format!("call-{}-2-3", state.loop_id.to_string()))
    );
    assert!(prepare(call(Some("call-2"), "n", "{}"), 4, false).is_ok());
    assert_eq!(
        tool_message(prepare(call(Some("call-2"), "n", "{}"), 5, false)),
        "tool call n reused correlation id call-2"
    );
}

#[test]
fn remote_calls_are_not_rewritten() {
    let state = state();
    let mut tools = ToolsConfig::default();
    tools.memory_search = false;
    let arguments = "{\"query\":\"x\",\"limit\":9999}";
    let prepare = |profile: ExecutionProfile| {
        prepare_round_call(
            call(Some("c"), "semantic_search_memory", arguments),
            profile,
            &tools,
            state.session_id,
            state.loop_id,
            1,
            0,
            &mut Vec::new(),
            false,
        )
    };
    let remote = prepare(ExecutionProfile::ExternalContext).unwrap();
    assert_eq!(remote.arguments, JsonValue::parse(arguments).unwrap());
    assert!(prepare(ExecutionProfile::MemoryAware).is_err());
}

#[test]
fn rounds_are_planned_within_the_reserve() {
    let calls = vec![call(Some("id"), "tool", "{\"k\":\"v\"}")];
    let said = "thinking aloud";
    let turn = message(ConversationRole::Assistant, "", None, clone_emptied(&calls));
    let least = estimate_conversation_message(&CharEstimator, &turn)
        + minimum_tool_result_message_tokens(&calls[0], &CharEstimator).unwrap();
    assert_eq!(
        configuration_message(plan_round(&CharEstimator, &[], said, &calls, least - 1)),
        format!(
            "tool transcript needs at least {least} tokens but only {} remain in context_budget.reserve_tools",
            least - 1
        )
    );
    let tight = plan_round(&CharEstimator, &[], said, &calls, least).unwrap();
    assert_eq!(tight.assistant_turn.content, "");
    assert_eq!(tight.result_extra_tokens, 0);
    let ample = plan_round(&CharEstimator, &[], said, &calls, least + 300).unwrap();
    assert_eq!(ample.assistant_turn.content, said);
    assert_eq!(ample.assistant_turn.tool_calls[0].arguments, calls[0].arguments);

    let earlier = vec![message(ConversationRole::Tool, "0123456789", Some("x"), Vec::new())];
    let spent = estimate_conversation_message(&CharEstimator, &earlier[0]);
    assert_eq!(spend_messages(&CharEstimator, &earlier, spent + 4), Some(4));
    assert_eq!(spend_messages(&CharEstimator, &earlier, spent - 1), None);
    assert_eq!(
        configuration_message(plan_round(&CharEstimator, &earlier, said, &calls, spent - 1)),
        "current tool transcript already exceeds context_budget.reserve_tools"
    );
}

#[test]
fn phases_keep_side_effects_in_order() {
    let kinds = [
        ToolExecutionKind::ReadOnly,
        ToolExecutionKind::ReadOnly,
        ToolExecutionKind::SideEffecting,
        ToolExecutionKind::SideEffecting,
        ToolExecutionKind::ReadOnly,
    ];
    let calls: Vec<_> = kinds
        .iter()
        .enumerate()
        .map(|(index, kind)| prepared(index, *kind, None))
        .collect();
    assert_eq!(tool_phases(&calls), vec![vec![0, 1], vec![2], vec![3], vec![4]]);
    let cached = RawNode::json(
        RawNodeKind::ToolResult,
        None,
        None,
        "tool:n",
        JsonValue::empty_object(),
        Float32::from_bits(0),
        Vec::new(),
    );
    let calls = vec![
        prepared(0, ToolExecutionKind::ReadOnly, None),
        prepared(1, ToolExecutionKind::SideEffecting, Some(cached)),
        prepared(2, ToolExecutionKind::ReadOnly, None),
    ];
    assert_eq!(tool_phases(&calls), vec![vec![0, 2]]);
    assert!(tool_phases(&[]).is_empty());
}

#[test]
fn cut_off_side_effects_are_indeterminate() {
    let writing = prepared(0, ToolExecutionKind::SideEffecting, None);
    let reading = prepared(1, ToolExecutionKind::ReadOnly, None);
    let limit = Duration::from_millis(1500);
    let reason = |outcome: Result<ToolCallResult>| match outcome {
        Err(EngineError::ToolOutcomeIndeterminate { idempotency_key, reason }) => {
            assert_eq!(idempotency_key, "op-key");
            reason
        }
        other => panic!("unexpected {other:?}"),
    };
    assert_eq!(
        reason(tool_outcome(&writing, TimedToolOutcome::Cancelled, limit)),
        "tool lookup was cancelled after dispatch"
    );
    assert_eq!(
        reason(tool_outcome(&writing, TimedToolOutcome::TimedOut, limit)),
        "tool lookup exceeded the configured timeout of 1.5s"
    );
    assert!(matches!(
        tool_outcome(&reading, TimedToolOutcome::Cancelled, limit),
        Err(EngineError::Cancelled)
    ));
    assert_eq!(
        tool_message(tool_outcome(&reading, TimedToolOutcome::TimedOut, limit)),
        "tool lookup exceeded the configured tool_timeout of 1.5s"
    );
    let done = result(None, "lookup", "{}", "s");
    assert_eq!(
        tool_outcome(&writing, TimedToolOutcome::Completed(Ok(done.clone())), limit).unwrap(),
        done
    );
    assert!(round_ending(&Ok(done)).is_none());
    assert!(round_ending(&Err(EngineError::Tool("t".to_string()))).is_none());
    assert!(matches!(
        round_ending(&Err(EngineError::Cancelled)),
        Some(EngineError::Cancelled)
    ));
    let cut_off = tool_outcome(&writing, TimedToolOutcome::TimedOut, limit);
    assert!(matches!(
        round_ending(&cut_off),
        Some(EngineError::ToolOutcomeIndeterminate { idempotency_key, .. })
            if idempotency_key == "op-key"
    ));
}

#[test]
fn results_carry_the_ids_of_their_call() {
    let call = prepared(3, ToolExecutionKind::ReadOnly, None);
    let given = result(Some("forged"), "forged", "{\"a\":1}", "s");
    let taken = returned_result(&call, Some(Ok(given)), None).unwrap();
    assert_eq!(taken, result(Some("call-1"), "lookup", "{\"a\":1}", "s"));
}

#[test]
fn failures_are_reported_or_end_the_round() {
    let call = prepared(3, ToolExecutionKind::ReadOnly, None);
    let failed = returned_result(&call, Some(Err(EngineError::Tool("boom".to_string()))), None);
    assert_eq!(
        failed.unwrap(),
        result(
            Some("call-1"),
            "lookup",
            "{\"error\":\"tool error: boom\"}",
            "lookup error=tool error: boom"
        )
    );
    assert!(matches!(
        returned_result(&call, Some(Err(EngineError::Cancelled)), None),
        Err(EngineError::Cancelled)
    ));
    assert!(matches!(
        returned_result(&call, None, Some(EngineError::Cancelled)),
        Err(EngineError::Cancelled)
    ));
    assert_eq!(
        tool_message(returned_result(&call, None, None)),
        "missing tool result for index 3 (tool lookup)"
    );
}

#[test]
fn recorded_results_are_replayed() {
    let written = result(None, "lookup", "{\"deep\":[1,\"two\",null]}", "quote \" and \\");
    let node = tool_result_node(
        SessionId::new(),
        LoopId::new(),
        &written,
        &"op-key".to_string(),
    );
    assert_eq!(node.kind, RawNodeKind::ToolResult);
    assert_eq!(node.metadata.source, "tool:lookup");
    assert_eq!(node.metadata.tags, vec!["tool".to_string()]);
    assert_eq!(node.metadata.importance.bits, 0.72f32.to_bits());
    assert_eq!(node.operation_key.as_deref(), Some("op-key"));
    assert_eq!(decode_tool_result_from_raw(&node).unwrap(), written);
    let replayed =
        returned_result(&prepared(0, ToolExecutionKind::SideEffecting, Some(node)), None, None);
    assert_eq!(
        replayed.unwrap(),
        result(Some("call-1"), "lookup", "{\"deep\":[1,\"two\",null]}", "quote \" and \\")
    );

    let mut text = RawNode::text(
        RawNodeKind::ToolResult,
        None,
        None,
        "tool:n",
        "plain",
        Float32::from_bits(0),
        Vec::new(),
    );
    assert_eq!(
        tool_message(decode_tool_result_from_raw(&text)),
        "tool result raw node must store a JSON payload"
    );
    for (payload, field) in [
        ("{\"summary\":\"s\",\"content\":1}", "name"),
        ("{\"name\":\"n\",\"content\":1}", "summary"),
        ("{\"name\":\"n\",\"summary\":\"s\"}", "content"),
        ("{\"name\":\"n\",\"summary\":\"s\",\"content\":1,\"tool_call_id\":2}", "tool_call_id"),
    ] {
        text.content = RawContent::Json(JsonValue::parse(payload).unwrap());
        assert_eq!(
            tool_message(decode_tool_result_from_raw(&text)),
            format!("failed to decode tool result from raw node: missing or invalid field {field}")
        );
    }
}

#[test]
fn results_share_the_reserve() {
    let calls = vec![call(Some("a"), "one", "{}"), call(Some("b"), "two", "{}")];
    let reserve = 200;
    let plan = plan_round(&CharEstimator, &[], "", &calls, reserve).unwrap();
    let mut state = state();
    state.pending_tool_calls = calls;
    let mut extra = plan.result_extra_tokens;
    let mut shown = Vec::new();
    let long = format!("\"{}\"", "z".repeat(400));
    for (position, name) in ["one", "two"].iter().enumerate() {
        let id = ["a", "b"][position];
        shown.push(show_result(
            &CharEstimator,
            result(Some(id), name, &long, "s"),
            plan.minimum_result_tokens[position],
            2 - position,
            &mut extra,
        ));
    }
    close_round(&CharEstimator, &mut state, plan.assistant_turn, shown, 1, reserve).unwrap();
    let tokens: usize = state
        .turn_messages
        .iter()
        .map(|message| estimate_conversation_message(&CharEstimator, message))
        .sum();
    assert!(tokens <= reserve);
    assert_eq!(state.turn_messages.len(), 3);
    assert_eq!(state.turn_messages[1].tool_call_id.as_deref(), Some("a"));
    assert_eq!(state.turn_messages[2].tool_call_id.as_deref(), Some("b"));
    assert_eq!(state.tool_rounds_completed, 1);
    assert!(state.pending_tool_calls.is_empty());
}

#[test]
fn overfull_rounds_are_refused() {
    let mut state = state();
    state.pending_tool_calls = vec![call(Some("a"), "one", "{}")];
    let turn = message(ConversationRole::Assistant, "said", None, Vec::new());
    let used = estimate_conversation_message(&CharEstimator, &turn);
    let refused = close_round(&CharEstimator, &mut state, turn, Vec::new(), 1, used - 1);
    assert_eq!(
        configuration_message(refused),
        format!("bounded tool transcript used {used} tokens, exceeding reserve_tools={} ", used - 1)
    );
    assert_eq!(state.pending_tool_calls.len(), 1);
    assert_eq!(state.tool_rounds_completed, 0);
}

#[test]
fn recorded_nodes_keep_the_session_in_order() {
    let mut state = state();
    let node = |secs: i64| {
        let mut node = RawNode::text(
            RawNodeKind::Note,
            None,
            None,
            "s",
            "t",
            Float32::from_bits(0),
            Vec::new(),
        );
        node.timestamp = Timestamp { secs, nanos: 0 };
        node
    };
    let (first, second, third) = (node(1), node(2), node(3));
    push_raw_node_into_state(&mut state, first.clone());
    push_raw_node_into_state(&mut state, third.clone());
    push_raw_node_into_state(&mut state, second.clone());
    push_raw_node_into_state(&mut state, second.clone());
    let ids: Vec<_> = state.recent_session.iter().map(|node| node.id).collect();
    assert_eq!(ids, vec![first.id, second.id, third.id]);

    let shown = result(Some("a"), "n", "{\"v\":1}", "s");
    record_tool_result(&mut state, Some(node(4)), shown.clone());
    record_tool_result(&mut state, None, shown.clone());
    assert_eq!(state.tool_results, vec![shown.clone(), shown.clone()]);
    let last = state.recent_session.last().unwrap();
    assert_eq!(last.content_text(), shown.encode());
    assert_eq!(state.recent_session.len(), 4);
}

#[test]
fn operation_keys_name_the_call() {
    let loop_id = LoopId::new();
    let key = tool_result_operation_key(loop_id, 2, 3, "search");
    assert!(key.contains(&loop_id.to_string()));
    assert_ne!(key, tool_result_operation_key(loop_id, 2, 4, "search"));
    assert_ne!(key, tool_result_operation_key(loop_id, 3, 3, "search"));
    assert_ne!(key, tool_result_operation_key(loop_id, 2, 3, "fetch"));
}
