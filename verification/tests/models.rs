use takos_agent_engine::error::EngineError;
use takos_agent_engine::float32::Float32;
use takos_agent_engine::ids::{LoopId, SessionId};
use takos_agent_engine::json::JsonValue;
use takos_agent_engine::model::embedding::Embedding;
use takos_agent_engine::model::openai_chat::{
    chat_output, messages_for_input, parse_function_call, parse_tool_calls, push_section,
    ChatChoiceMessage, OpenAiChatConfig, OpenAiChatToolDefinition, OpenAiFunctionCall,
    OpenAiToolCall, OpenAiUsage,
};
use takos_agent_engine::model::openai_embedding::{
    first_embedding, EmbeddingData, OpenAiEmbeddingConfig,
};
use takos_agent_engine::model::openai_http::{
    after_response, backoff_seconds, parse_retry_after_seconds, retry_backoff,
    retry_jitter_ms_for_attempt, status_failure, transport_failure, RetryStep,
};
use takos_agent_engine::model::runner::{ModelInput, ModelUsage, ToolCallRequest};
use takos_agent_engine::time::Duration;

fn float(value: f32) -> Float32 {
    Float32::from_bits(value.to_bits())
}

fn sample_input() -> ModelInput {
    ModelInput {
        session_id: SessionId::new(),
        loop_id: LoopId::new(),
        system_prompt: "system prompt".to_string(),
        session_context: vec!["recent message".to_string()],
        memory_context: vec!["remembered fact".to_string()],
        tool_context: vec!["tool result".to_string()],
        conversation_history: Vec::new(),
        turn_messages: Vec::new(),
        user_message: "what next?".to_string(),
        plan: Some("plan text".to_string()),
    }
}

fn function(name: &str, arguments: Option<JsonValue>) -> OpenAiFunctionCall {
    OpenAiFunctionCall { name: name.to_string(), arguments }
}

fn text_choice(content: Option<&str>) -> ChatChoiceMessage {
    ChatChoiceMessage {
        content: content.map(|text| text.to_string()),
        tool_calls: None,
        function_call: None,
    }
}

fn model_message<T: std::fmt::Debug>(outcome: Result<T, EngineError>) -> String {
    match outcome {
        Err(EngineError::Model(text)) => text,
        other => panic!("unexpected {other:?}"),
    }
}

#[test]
fn run_sends_openai_compatible_request_and_parses_text_response() {
    let config = OpenAiChatConfig::new("chat-model", "test-key")
        .with_base_url("http://localhost:8080//")
        .with_temperature(float(0.2))
        .with_max_tokens(128)
        .with_timeout(Duration::from_secs(9));
    assert!(config.validate().is_ok());
    assert_eq!(config.model, "chat-model");
    assert_eq!(config.temperature, Some(float(0.2)));
    assert_eq!(config.max_tokens, Some(128));
    assert_eq!(config.timeout, Duration::from_secs(9));
    assert_eq!(config.chat_completions_url(), "http://localhost:8080/chat/completions");

    let input = sample_input();
    let session = input.session_id.to_string();
    let messages = messages_for_input(input);
    assert_eq!(messages.len(), 2);
    assert_eq!(messages[0].role, "system");
    assert_eq!(messages[0].content, "system prompt");
    assert_eq!(messages[1].role, "user");
    let user_content = &messages[1].content;
    assert!(user_content.starts_with(&format!("Session ID: {session}\n\nLoop ID: ")));
    assert!(user_content.contains("Plan:\nplan text"));
    assert!(user_content.contains("Session context:\nrecent message"));
    assert!(user_content.contains("Memory context:\nremembered fact"));
    assert!(user_content.contains("Tool context:\ntool result"));
    assert!(user_content.ends_with("User message:\nwhat next?"));

    let output = chat_output(Some(text_choice(Some("hello from model"))), None).unwrap();
    assert_eq!(output.assistant_message.as_deref(), Some("hello from model"));
    assert!(output.tool_calls.is_empty());
    assert_eq!(output.usage, None);
}

/// A choice that calls a function with arguments in a text.
fn calling(name: &str, arguments: &str) -> ChatChoiceMessage {
    ChatChoiceMessage {
        content: None,
        tool_calls: Some(vec![OpenAiToolCall {
            function: Some(function(name, Some(JsonValue::string(arguments)))),
        }]),
        function_call: None,
    }
}

/// Asks again for as long as the answers say so. Each answer is a status and a
/// header; how many were used comes back with the last one's status.
fn served(answers: &[(u16, Option<&str>)]) -> (usize, u16) {
    let mut attempt = 0;
    loop {
        let (status, retry_after) = answers[attempt];
        attempt += 1;
        match after_response(status, attempt as u32 - 1, retry_after, 0) {
            RetryStep::Wait(_) => {}
            RetryStep::Accept | RetryStep::Fail => return (attempt, status),
        }
    }
}

#[test]
fn run_parses_tool_calls() {
    let choice = calling("semantic_search_memory", "{\"query\":\"rust\",\"top_k\":2}");
    let output = chat_output(Some(choice), None).unwrap();
    assert_eq!(output.assistant_message, None);
    assert_eq!(
        output.tool_calls,
        vec![ToolCallRequest {
            id: None,
            name: "semantic_search_memory".to_string(),
            arguments: JsonValue::parse("{ \"query\": \"rust\", \"top_k\": 2 }").unwrap(),
        }]
    );
}

#[test]
fn run_sends_tools_and_parses_tool_call_response() {
    let parameters = JsonValue::parse(
        "{\"type\":\"object\",\"properties\":{\"query\":{\"type\":\"string\"},\
         \"top_k\":{\"type\":\"integer\"}},\"required\":[\"query\"]}",
    )
    .unwrap();
    let tool = OpenAiChatToolDefinition::function(
        "semantic_search_memory",
        "Search activated and long-term memory.",
        parameters.clone(),
    );
    let config = OpenAiChatConfig::new("chat-model", "test-key")
        .with_tools(vec![tool])
        .with_tool_choice(JsonValue::string("auto"));
    assert_eq!(config.tool_choice, Some(JsonValue::string("auto")));
    assert_eq!(config.tools.len(), 1);
    assert_eq!(config.tools[0].kind, "function");
    assert_eq!(config.tools[0].function.name, "semantic_search_memory");
    assert_eq!(config.tools[0].function.parameters, parameters);
    assert_eq!(
        config.tools[0].function.parameters.member("required"),
        Some(JsonValue::parse("[\"query\"]").unwrap())
    );
    assert_eq!(config.chat_completions_url(), "https://api.openai.com/v1/chat/completions");

    let choice = calling("semantic_search_memory", "{\"query\":\"rust\",\"top_k\":2}");
    let output = chat_output(Some(choice), None).unwrap();
    assert_eq!(
        output.tool_calls,
        vec![ToolCallRequest {
            id: None,
            name: "semantic_search_memory".to_string(),
            arguments: JsonValue::parse("{ \"query\": \"rust\", \"top_k\": 2 }").unwrap(),
        }]
    );
}

#[test]
fn run_returns_model_error_for_http_error() {
    assert_eq!(served(&[(500, None)]), (1, 500));
    let body = "{\"error\":{\"message\":\"backend unavailable\",\"type\":\"server_error\"}}";
    let error =
        status_failure("chat completion request failed", "500 Internal Server Error", body);
    assert!(matches!(error, EngineError::Model(_)));
    let message = error.to_string();
    assert!(message.contains("HTTP 500"));
    assert!(message.contains("backend unavailable"));
    assert_eq!(
        transport_failure("request failed", "refused").to_string(),
        "model error: request failed: refused"
    );
}

#[test]
fn run_retries_on_503_and_recovers() {
    assert_eq!(
        after_response(503, 0, Some("0"), 0),
        RetryStep::Wait(Duration::from_secs(1))
    );
    assert_eq!(served(&[(503, Some("0")), (200, None)]), (2, 200));
    let output = chat_output(Some(text_choice(Some("recovered"))), None).unwrap();
    assert_eq!(output.assistant_message.as_deref(), Some("recovered"));
}

fn embedded(components: &[f32], index: Option<usize>) -> EmbeddingData {
    EmbeddingData {
        embedding: Embedding(components.iter().map(|value| float(*value)).collect()),
        index,
    }
}

fn embedding(components: &[f32]) -> Embedding {
    embedded(components, None).embedding
}

#[test]
fn embed_text_sends_openai_compatible_request_and_parses_response() {
    let config = OpenAiEmbeddingConfig::new("text-embedding-3-small", "test-key")
        .with_base_url("http://localhost:8080/")
        .with_dimensions(256);
    assert!(config.validate().is_ok());
    assert_eq!(config.model, "text-embedding-3-small");
    assert_eq!(config.api_key, "test-key");
    assert_eq!(config.dimensions, Some(256));
    assert_eq!(config.embeddings_url(), "http://localhost:8080/embeddings");
    let data = vec![embedded(&[0.1, 0.2, 0.3], Some(0))];
    assert_eq!(first_embedding(data).unwrap(), embedding(&[0.1, 0.2, 0.3]));
}

#[test]
fn embed_text_returns_model_error_for_non_retryable_http_error() {
    assert_eq!(served(&[(401, None)]), (1, 401));
    let body =
        "{\"error\":{\"message\":\"missing api key\",\"type\":\"invalid_request_error\"}}";
    let error = status_failure("embedding request failed", "401 Unauthorized", body);
    assert!(matches!(error, EngineError::Model(_)));
    let message = error.to_string();
    assert!(message.contains("HTTP 401"));
    assert!(message.contains("missing api key"));
}

#[test]
fn embed_text_retries_on_429_and_succeeds() {
    assert_eq!(served(&[(429, Some("0")), (200, None)]), (2, 200));
    let data = vec![embedded(&[0.5, 0.5], Some(0))];
    assert_eq!(first_embedding(data).unwrap(), embedding(&[0.5, 0.5]));
}

#[test]
fn transient_responses_are_retried_a_few_times() {
    for status in [429, 502, 503, 504] {
        assert!(matches!(after_response(status, 3, None, 0), RetryStep::Wait(_)));
        assert_eq!(after_response(status, 4, None, 0), RetryStep::Fail);
    }
    for status in [400, 401, 404, 500, 501, 505, 302] {
        assert_eq!(after_response(status, 0, None, 0), RetryStep::Fail);
    }
    for status in [200, 204, 299] {
        assert_eq!(after_response(status, 9, None, 0), RetryStep::Accept);
    }
}

#[test]
fn waits_double_up_to_a_limit() {
    let seconds: Vec<u64> = (0..6).map(backoff_seconds).collect();
    assert_eq!(seconds, vec![1, 2, 4, 8, 8, 8]);
    assert_eq!(retry_jitter_ms_for_attempt(3, 8, 0), 3);
    assert_eq!(retry_jitter_ms_for_attempt(0, 0, 77), 0);
    let nanos: u32 = 123_456_789;
    let entropy = u64::from(nanos).wrapping_mul(0x9e37_79b9_7f4a_7c15).wrapping_add(1);
    assert_eq!(retry_jitter_ms_for_attempt(1, 2, nanos), entropy % 500);
    assert_eq!(retry_backoff(1, None, 0), Duration::from_millis(2_001));
    assert_eq!(retry_backoff(1, Some("1"), 0), Duration::from_millis(2_001));
    assert_eq!(retry_backoff(1, Some(" 30 "), 0), Duration::from_secs(30));
    assert_eq!(retry_backoff(1, Some("Wed, 21 Oct"), 0), Duration::from_millis(2_001));
    for attempt in 0..5 {
        for clock in [0, 1, 999_999_999] {
            let base = backoff_seconds(attempt);
            let wait = retry_backoff(attempt, None, clock);
            assert!(!wait.is_shorter(&Duration::from_secs(base)));
            assert!(wait.is_shorter(&Duration::from_millis(base * 1_250)));
        }
    }
    assert_eq!(parse_retry_after_seconds("+5"), Some(5));
    assert_eq!(parse_retry_after_seconds(""), None);
    assert_eq!(parse_retry_after_seconds("1.5"), None);
    assert_eq!(parse_retry_after_seconds("18446744073709551615"), Some(u64::MAX));
    assert_eq!(parse_retry_after_seconds("18446744073709551616"), None);
}

#[test]
fn empty_model_is_rejected() {
    let err = OpenAiChatConfig::new("", "test-key").validate().unwrap_err();
    assert!(matches!(err, EngineError::Configuration(_)));
    assert!(err.to_string().contains("model"));
    let err = OpenAiChatConfig::new("m", " ").validate().unwrap_err();
    assert!(err.to_string().contains("api_key"));
    let err = OpenAiChatConfig::new("m", "k").with_base_url("").validate().unwrap_err();
    assert!(err.to_string().contains("base_url"));
}

#[test]
fn empty_api_key_is_rejected() {
    let err = OpenAiEmbeddingConfig::new("embedding-model", "").validate().unwrap_err();
    assert!(matches!(err, EngineError::Configuration(_)));
    assert!(err.to_string().contains("api_key"));
    let err = OpenAiEmbeddingConfig::new(" ", "key").validate().unwrap_err();
    assert!(err.to_string().contains("embedding model"));
    let config = OpenAiEmbeddingConfig::new("m", "k")
        .with_base_url("http://host/v1/")
        .with_dimensions(3);
    assert!(config.validate().is_ok());
    assert_eq!(config.dimensions, Some(3));
    assert_eq!(config.embeddings_url(), "http://host/v1/embeddings");
}

#[test]
fn environment_keys_are_required() {
    let config =
        OpenAiChatConfig::with_environment_key("m", Some("key".to_string())).unwrap();
    assert_eq!(config.api_key, "key");
    match OpenAiChatConfig::with_environment_key("m", None) {
        Err(EngineError::Configuration(text)) => assert_eq!(
            text,
            "missing OPENAI_API_KEY for OpenAI-compatible chat"
        ),
        other => panic!("unexpected {other:?}"),
    }
}

#[test]
fn embed_text_parses_first_embedding_when_index_is_absent() {
    let data = vec![embedded(&[1.0, 2.0], None), embedded(&[3.0, 4.0], None)];
    assert_eq!(first_embedding(data).unwrap(), embedding(&[1.0, 2.0]));
    let data = vec![embedded(&[1.0, 2.0], Some(1)), embedded(&[3.0, 4.0], Some(0))];
    assert_eq!(first_embedding(data).unwrap(), embedding(&[3.0, 4.0]));
    assert_eq!(
        model_message(first_embedding(Vec::new())),
        "embedding response did not contain data"
    );
}

#[test]
fn sections_with_nothing_in_them_are_left_out() {
    let mut lines = Vec::new();
    push_section(&mut lines, "Empty", &[]);
    assert!(lines.is_empty());
    push_section(&mut lines, "Two", &["a".to_string(), "b".to_string()]);
    assert_eq!(lines, vec!["Two:\na\nb".to_string()]);
    let mut input = sample_input();
    input.system_prompt = "  ".to_string();
    input.plan = None;
    let messages = messages_for_input(input);
    assert_eq!(messages.len(), 1);
    assert!(!messages[0].content.contains("Plan:"));
}

#[test]
fn function_calls_are_read() {
    let none = parse_function_call(function("n", None)).unwrap();
    assert_eq!(none.arguments.as_str(), "{}");
    assert_eq!(none.id, None);
    let blank = parse_function_call(function("n", Some(JsonValue::string("  ")))).unwrap();
    assert_eq!(blank.arguments.as_str(), "{}");
    let object = JsonValue::parse("{\"a\":1}").unwrap();
    let direct = parse_function_call(function("n", Some(object.clone()))).unwrap();
    assert_eq!(direct.arguments, object);
    assert_eq!(
        model_message(parse_function_call(function(" ", None))),
        "tool call response contained empty function name"
    );
    assert!(model_message(parse_function_call(function("n", Some(JsonValue::string("{")))))
        .starts_with("failed to parse tool call arguments for n: EOF while parsing an object"));
    assert_eq!(
        model_message(parse_tool_calls(Some(vec![OpenAiToolCall { function: None }]), None)),
        "tool call response did not contain function"
    );
    let legacy = parse_tool_calls(None, Some(function("old", None))).unwrap();
    assert_eq!(legacy[0].name, "old");
    assert!(parse_tool_calls(None, None).unwrap().is_empty());
}

#[test]
fn usage_and_missing_choices_are_reported() {
    let usage = OpenAiUsage { prompt_tokens: 9, completion_tokens: 4, cached_tokens: Some(2) };
    let output = chat_output(Some(text_choice(Some("x"))), Some(usage)).unwrap();
    assert_eq!(
        output.usage,
        Some(ModelUsage { input_tokens: 9, output_tokens: 4, cached_input_tokens: 2 })
    );
    assert_eq!(
        model_message(chat_output(None, None)),
        "chat completion response did not contain choices"
    );
}
