//! Completions from a provider that speaks the OpenAI protocol.
use vstd::prelude::*;

use crate::error;
use crate::error::{EngineError, Result};
use crate::float32::Float32;
use crate::ids;
use crate::json;
use crate::json::JsonValue;
use crate::model::openai_embedding::DEFAULT_BASE_URL;
use crate::model::runner;
use crate::model::runner::{Answer, ModelInput, ModelOutput, ModelUsage, ToolCall, ToolCallRequest};
use crate::order;
use crate::text;
use crate::text::{is_blank, join, trim_trailing_slashes, IntoText};
use crate::time::Duration;

verus! {

/// The variable that holds the key unless it is given.
pub const DEFAULT_API_KEY_ENV: &'static str = "OPENAI_API_KEY";

/// A function that a model may call.
#[derive(Debug, PartialEq, Eq)]
pub struct OpenAiChatFunctionTool {
    pub name: String,
    pub description: Option<String>,
    pub parameters: JsonValue,
}

/// A tool that is offered to a model.
#[derive(Debug, PartialEq, Eq)]
pub struct OpenAiChatToolDefinition {
    pub kind: String,
    pub function: OpenAiChatFunctionTool,
}

impl OpenAiChatToolDefinition {
    /// A function that a model may call.
    pub fn function<N: IntoText, D: IntoText>(
        name: N,
        description: D,
        parameters: JsonValue,
    ) -> (tool: Self)
        ensures
            tool.kind@ == "function"@,
            tool.function.name@ == name.chars(),
            text::opt_text(tool.function.description) == Some(description.chars()),
            tool.function.parameters == parameters,
    {
        OpenAiChatToolDefinition {
            kind: "function".to_string(),
            function: OpenAiChatFunctionTool {
                name: name.into_text(),
                description: Some(description.into_text()),
                parameters,
            },
        }
    }
}

/// Where completions come from.
#[derive(Debug)]
pub struct OpenAiChatConfig {
    pub base_url: String,
    pub model: String,
    pub api_key: String,
    pub temperature: Option<Float32>,
    pub max_tokens: Option<u32>,
    pub tools: Vec<OpenAiChatToolDefinition>,
    pub tool_choice: Option<JsonValue>,
    pub timeout: Duration,
}

impl OpenAiChatConfig {
    /// A model at the default provider.
    pub fn new<M: IntoText, K: IntoText>(model: M, api_key: K) -> (config: Self)
        ensures
            config.base_url@ == DEFAULT_BASE_URL@,
            config.model@ == model.chars(),
            config.api_key@ == api_key.chars(),
            config.temperature is None,
            config.max_tokens is None,
            config.tools@.len() == 0,
            config.tool_choice is None,
            config.timeout.secs == 60,
            config.timeout.nanos == 0,
    {
        OpenAiChatConfig {
            base_url: DEFAULT_BASE_URL.to_string(),
            model: model.into_text(),
            api_key: api_key.into_text(),
            temperature: None,
            max_tokens: None,
            tools: Vec::new(),
            tool_choice: None,
            timeout: Duration::from_secs(60),
        }
    }

    /// A model at the default provider, with the key that the environment
    /// holds, if it holds one.
    pub fn with_environment_key<M: IntoText>(model: M, api_key: Option<String>) -> (result: Result<
        Self,
    >)
        ensures
            match api_key {
                None => result is Err && error::is_configuration(
                    result->Err_0,
                    "missing "@ + DEFAULT_API_KEY_ENV@ + " for OpenAI-compatible chat"@,
                ),
                Some(key) => result is Ok && result->Ok_0.api_key@ == key@
                    && result->Ok_0.model@ == model.chars() && result->Ok_0.base_url@
                    == DEFAULT_BASE_URL@ && result->Ok_0.tools@.len() == 0
                    && result->Ok_0.temperature is None && result->Ok_0.max_tokens is None
                    && result->Ok_0.tool_choice is None && result->Ok_0.timeout.secs == 60
                    && result->Ok_0.timeout.nanos == 0,
            },
    {
        match api_key {
            Some(key) => Ok(OpenAiChatConfig::new(model, key)),
            None => Err(
                EngineError::Configuration(
                    "missing ".to_string().concat(DEFAULT_API_KEY_ENV).concat(
                        " for OpenAI-compatible chat",
                    ),
                ),
            ),
        }
    }

    /// The same at another provider.
    pub fn with_base_url<U: IntoText>(self, base_url: U) -> (config: Self)
        ensures
            config.base_url@ == base_url.chars(),
            config == (OpenAiChatConfig { base_url: config.base_url, ..self }),
    {
        let mut config = self;
        config.base_url = base_url.into_text();
        config
    }

    /// The same with a temperature.
    pub fn with_temperature(self, temperature: Float32) -> (config: Self)
        ensures
            config == (OpenAiChatConfig { temperature: Some(temperature), ..self }),
    {
        let mut config = self;
        config.temperature = Some(temperature);
        config
    }

    /// The same with a limit on what is said.
    pub fn with_max_tokens(self, max_tokens: u32) -> (config: Self)
        ensures
            config == (OpenAiChatConfig { max_tokens: Some(max_tokens), ..self }),
    {
        let mut config = self;
        config.max_tokens = Some(max_tokens);
        config
    }

    /// The same with tools on offer.
    pub fn with_tools(self, tools: Vec<OpenAiChatToolDefinition>) -> (config: Self)
        ensures
            config == (OpenAiChatConfig { tools, ..self }),
    {
        let mut config = self;
        config.tools = tools;
        config
    }

    /// The same with a rule about which tools are called.
    pub fn with_tool_choice(self, tool_choice: JsonValue) -> (config: Self)
        ensures
            config == (OpenAiChatConfig { tool_choice: Some(tool_choice), ..self }),
    {
        let mut config = self;
        config.tool_choice = Some(tool_choice);
        config
    }

    /// The same with another time limit.
    pub fn with_timeout(self, timeout: Duration) -> (config: Self)
        ensures
            config == (OpenAiChatConfig { timeout, ..self }),
    {
        let mut config = self;
        config.timeout = timeout;
        config
    }

    /// Why the configuration is refused, if it is.
    pub open spec fn fault(self) -> Option<Seq<char>> {
        if text::blank(self.base_url@) {
            Some("OpenAI-compatible chat base_url must not be empty"@)
        } else if text::blank(self.model@) {
            Some("OpenAI-compatible chat model must not be empty"@)
        } else if text::blank(self.api_key@) {
            Some("OpenAI-compatible chat api_key must not be empty"@)
        } else {
            None
        }
    }

    /// Refuses a configuration that leaves something out.
    pub fn validate(&self) -> (result: Result<()>)
        ensures
            match self.fault() {
                Some(message) => result is Err && error::is_configuration(result->Err_0, message),
                None => result is Ok,
            },
    {
        if is_blank(self.base_url.as_str()) {
            return Err(
                EngineError::Configuration(
                    "OpenAI-compatible chat base_url must not be empty".to_string(),
                ),
            );
        }
        if is_blank(self.model.as_str()) {
            return Err(
                EngineError::Configuration(
                    "OpenAI-compatible chat model must not be empty".to_string(),
                ),
            );
        }
        if is_blank(self.api_key.as_str()) {
            return Err(
                EngineError::Configuration(
                    "OpenAI-compatible chat api_key must not be empty".to_string(),
                ),
            );
        }
        Ok(())
    }

    /// Where completions are asked for.
    pub fn chat_completions_url(&self) -> (url: String)
        ensures
            url@ == text::without_trailing_slashes(self.base_url@) + "/chat/completions"@,
    {
        trim_trailing_slashes(self.base_url.as_str()).concat("/chat/completions")
    }
}

/// A message of a request.
#[derive(Debug, PartialEq, Eq)]
pub struct ChatMessage {
    pub role: &'static str,
    pub content: String,
}

/// A message of a request as a mathematical value.
#[verifier::ext_equal]
pub struct Sent {
    pub role: Seq<char>,
    pub content: Seq<char>,
}

impl View for ChatMessage {
    type V = Sent;

    open spec fn view(&self) -> Sent {
        Sent { role: self.role@, content: self.content@ }
    }
}

/// Sections with one more, unless it would be empty.
pub open spec fn with_section(
    lines: Seq<Seq<char>>,
    title: Seq<char>,
    values: Seq<Seq<char>>,
) -> Seq<Seq<char>> {
    if values.len() == 0 {
        lines
    } else {
        lines.push(title + ":\n"@ + text::joined(values, "\n"@))
    }
}

/// The sections of the user's part of a request.
pub open spec fn user_sections(input: ModelInput) -> Seq<Seq<char>> {
    let identified = seq![
        "Session ID: "@ + ids::hyphenated(input.session_id.0.bits),
        "Loop ID: "@ + ids::hyphenated(input.loop_id.0.bits),
    ];
    let planned = match input.plan {
        Some(plan) => with_section(identified, "Plan"@, seq![plan@]),
        None => identified,
    };
    let session = with_section(
        planned,
        "Session context"@,
        text::texts(input.session_context@),
    );
    let memory = with_section(session, "Memory context"@, text::texts(input.memory_context@));
    let tools = with_section(memory, "Tool context"@, text::texts(input.tool_context@));
    with_section(tools, "User message"@, seq![input.user_message@])
}

/// The messages of a request: the system prompt, unless it is blank, and one
/// message with everything else.
pub open spec fn request_messages(input: ModelInput) -> Seq<Sent> {
    let user = Sent {
        role: "user"@,
        content: text::joined(user_sections(input), "\n\n"@),
    };
    if text::blank(input.system_prompt@) {
        seq![user]
    } else {
        seq![Sent { role: "system"@, content: input.system_prompt@ }, user]
    }
}

/// Adds a section, unless it would be empty.
pub fn push_section(lines: &mut Vec<String>, title: &str, values: &[String])
    ensures
        text::texts(final(lines)@) == with_section(
            text::texts(old(lines)@),
            title@,
            text::texts(values@),
        ),
{
    if values.len() == 0 {
        return ;
    }
    let ghost before = text::texts(lines@);
    let section = title.to_string().concat(":\n").concat(join(values, "\n").as_str());
    lines.push(section);
    assert(text::texts(lines@) =~= before.push(section@));
}

fn single(value: String) -> (values: Vec<String>)
    ensures
        text::texts(values@) == seq![value@],
{
    let mut values: Vec<String> = Vec::new();
    values.push(value);
    assert(text::texts(values@) =~= seq![value@]);
    values
}

/// The messages of a request.
pub fn messages_for_input(input: ModelInput) -> (messages: Vec<ChatMessage>)
    ensures
        order::views(messages@) == request_messages(input),
{
    let mut sections: Vec<String> = Vec::new();
    sections.push("Session ID: ".to_string().concat(input.session_id.to_string().as_str()));
    sections.push("Loop ID: ".to_string().concat(input.loop_id.to_string().as_str()));
    assert(text::texts(sections@) =~= seq![
        "Session ID: "@ + ids::hyphenated(input.session_id.0.bits),
        "Loop ID: "@ + ids::hyphenated(input.loop_id.0.bits),
    ]);
    if let Some(plan) = &input.plan {
        let values = single(plan.clone());
        push_section(&mut sections, "Plan", values.as_slice());
    }
    push_section(&mut sections, "Session context", input.session_context.as_slice());
    push_section(&mut sections, "Memory context", input.memory_context.as_slice());
    push_section(&mut sections, "Tool context", input.tool_context.as_slice());
    let values = single(input.user_message.clone());
    push_section(&mut sections, "User message", values.as_slice());
    let user = ChatMessage { role: "user", content: join(sections.as_slice(), "\n\n") };
    let mut messages: Vec<ChatMessage> = Vec::new();
    if !is_blank(input.system_prompt.as_str()) {
        messages.push(ChatMessage { role: "system", content: input.system_prompt.clone() });
    }
    messages.push(user);
    assert(order::views(messages@) =~= request_messages(input));
    messages
}

/// A function that a model called, as a response tells it.
#[derive(Debug)]
pub struct OpenAiFunctionCall {
    pub name: String,
    pub arguments: Option<JsonValue>,
}

/// A function that was called, as a mathematical value.
pub struct Called {
    pub name: Seq<char>,
    pub arguments: Option<Seq<char>>,
}

impl View for OpenAiFunctionCall {
    type V = Called;

    open spec fn view(&self) -> Called {
        Called {
            name: self.name@,
            arguments: match self.arguments {
                Some(value) => Some(value@),
                None => None,
            },
        }
    }
}

/// A tool call of a response.
#[derive(Debug)]
pub struct OpenAiToolCall {
    pub function: Option<OpenAiFunctionCall>,
}

impl View for OpenAiToolCall {
    type V = Option<Called>;

    open spec fn view(&self) -> Option<Called> {
        match self.function {
            Some(function) => Some(function@),
            None => None,
        }
    }
}

/// The arguments of a call, or why they cannot be read: left out or blank ones
/// are an empty object, a string is read as JSON, and every other value stands
/// for itself.
pub open spec fn call_arguments(arguments: Option<Seq<char>>) -> core::result::Result<
    Seq<char>,
    Seq<char>,
> {
    match arguments {
        None => Ok("{}"@),
        Some(value) => match json::json_text(value) {
            None => Ok(value),
            Some(text) => if text::blank(text) {
                Ok("{}"@)
            } else {
                json::json_canonical(text)
            },
        },
    }
}

/// A call of a response, or why it is refused.
pub open spec fn read_call(called: Called) -> core::result::Result<ToolCall, Seq<char>> {
    if text::blank(called.name) {
        Err("tool call response contained empty function name"@)
    } else {
        match call_arguments(called.arguments) {
            Err(reason) => Err(
                "failed to parse tool call arguments for "@ + called.name + ": "@ + reason,
            ),
            Ok(arguments) => Ok(ToolCall { id: None, name: called.name, arguments }),
        }
    }
}

/// Reads a call of a response.
pub fn parse_function_call(function: OpenAiFunctionCall) -> (result: Result<ToolCallRequest>)
    ensures
        match read_call(function@) {
            Err(message) => result is Err && error::is_model(result->Err_0, message),
            Ok(call) => result is Ok && result->Ok_0@ == call,
        },
{
    if is_blank(function.name.as_str()) {
        return Err(
            EngineError::Model("tool call response contained empty function name".to_string()),
        );
    }
    let arguments = match function.arguments {
        None => JsonValue::empty_object(),
        Some(value) => match value.as_text() {
            None => value,
            Some(text) => if is_blank(text.as_str()) {
                JsonValue::empty_object()
            } else {
                match JsonValue::parse(text.as_str()) {
                    Ok(parsed) => parsed,
                    Err(reason) => return Err(
                        EngineError::Model(
                            "failed to parse tool call arguments for ".to_string().concat(
                                function.name.as_str(),
                            ).concat(": ").concat(reason.as_str()),
                        ),
                    ),
                }
            },
        },
    };
    Ok(ToolCallRequest { id: None, name: function.name, arguments })
}

/// The calls of a list, or why the first bad one is refused.
pub open spec fn read_calls(calls: Seq<Option<Called>>) -> core::result::Result<
    Seq<ToolCall>,
    Seq<char>,
>
    decreases calls.len(),
{
    if calls.len() == 0 {
        Ok(Seq::empty())
    } else {
        match read_calls(calls.drop_last()) {
            Err(message) => Err(message),
            Ok(earlier) => match calls.last() {
                None => Err("tool call response did not contain function"@),
                Some(called) => match read_call(called) {
                    Err(message) => Err(message),
                    Ok(call) => Ok(earlier.push(call)),
                },
            },
        }
    }
}

/// The entries of a response that make calls: its tool calls, and the single
/// function call of older providers.
pub open spec fn call_entries(
    tool_calls: Option<Vec<OpenAiToolCall>>,
    function_call: Option<OpenAiFunctionCall>,
) -> Seq<Option<Called>> {
    let listed = match tool_calls {
        Some(calls) => order::views(calls@),
        None => Seq::empty(),
    };
    match function_call {
        Some(called) => listed.push(Some(called@)),
        None => listed,
    }
}

/// Reading more entries does not mend a bad one.
proof fn bad_calls_stay_bad(calls: Seq<Option<Called>>, count: int)
    requires
        0 <= count <= calls.len(),
        read_calls(calls.take(count)) is Err,
    ensures
        read_calls(calls) == read_calls(calls.take(count)),
    decreases calls.len(),
{
    if count < calls.len() {
        assert(calls.drop_last().take(count) =~= calls.take(count));
        bad_calls_stay_bad(calls.drop_last(), count);
    } else {
        assert(calls.take(count) =~= calls);
    }
}

/// Reads the calls of a response.
pub fn parse_tool_calls(
    tool_calls: Option<Vec<OpenAiToolCall>>,
    function_call: Option<OpenAiFunctionCall>,
) -> (result: Result<Vec<ToolCallRequest>>)
    ensures
        match read_calls(call_entries(tool_calls, function_call)) {
            Err(message) => result is Err && error::is_model(result->Err_0, message),
            Ok(calls) => result is Ok && runner::calls_view(result->Ok_0@) == calls,
        },
{
    let ghost entries = call_entries(tool_calls, function_call);
    let mut parsed: Vec<ToolCallRequest> = Vec::new();
    let mut listed: Vec<OpenAiToolCall> = match tool_calls {
        Some(calls) => calls,
        None => Vec::new(),
    };
    let ghost all = order::views(listed@);
    assert(entries.take(all.len() as int) =~= all);
    assert(runner::calls_view(parsed@) =~= Seq::<ToolCall>::empty());
    assert(entries.take(0) =~= Seq::<Option<Called>>::empty());
    let count: usize = listed.len();
    let mut index: usize = 0;
    while index < count
        invariant
            index <= count,
            count == all.len(),
            listed.len() == count - index,
            order::views(listed@) == all.skip(index as int),
            all.len() <= entries.len(),
            entries.take(all.len() as int) == all,
            entries == call_entries(tool_calls, function_call),
            read_calls(entries.take(index as int)) == Ok::<Seq<ToolCall>, Seq<char>>(
                runner::calls_view(parsed@),
            ),
        decreases count - index,
    {
        let ghost rest = listed@;
        let call = listed.remove(0);
        proof {
            assert(order::views(rest)[0] == call@);
            assert(order::views(listed@) =~= order::views(rest).drop_first());
            assert(all.skip(index as int).drop_first() =~= all.skip(index + 1));
            assert(all[index as int] == call@);
            assert(entries[index as int] == all[index as int]);
            assert(entries.take(index + 1).drop_last() =~= entries.take(index as int));
            assert(entries.take(index + 1).last() == call@);
        }
        let function = match call.function {
            Some(function) => function,
            None => {
                proof {
                    bad_calls_stay_bad(entries, index + 1);
                }
                return Err(
                    EngineError::Model("tool call response did not contain function".to_string()),
                );
            },
        };
        let ghost before = runner::calls_view(parsed@);
        match parse_function_call(function) {
            Ok(request) => {
                parsed.push(request);
                assert(runner::calls_view(parsed@) =~= before.push(request@));
            },
            Err(failure) => {
                proof {
                    bad_calls_stay_bad(entries, index + 1);
                }
                return Err(failure);
            },
        }
        index = index + 1;
    }
    if let Some(function) = function_call {
        let ghost before = runner::calls_view(parsed@);
        proof {
            assert(entries.drop_last() =~= entries.take(all.len() as int));
        }
        match parse_function_call(function) {
            Ok(request) => {
                parsed.push(request);
                assert(runner::calls_view(parsed@) =~= before.push(request@));
            },
            Err(failure) => return Err(failure),
        }
    } else {
        assert(entries =~= entries.take(all.len() as int));
    }
    Ok(parsed)
}

/// Token usage as a response tells it.
#[derive(Debug, Clone, Copy, PartialEq, Eq, Structural)]
pub struct OpenAiUsage {
    pub prompt_tokens: u32,
    pub completion_tokens: u32,
    pub cached_tokens: Option<u32>,
}

/// The message of a response.
#[derive(Debug)]
pub struct ChatChoiceMessage {
    pub content: Option<String>,
    pub tool_calls: Option<Vec<OpenAiToolCall>>,
    pub function_call: Option<OpenAiFunctionCall>,
}

/// Token usage, with nothing cached unless a response says so.
pub open spec fn usage_of(usage: Option<OpenAiUsage>) -> Option<ModelUsage> {
    match usage {
        Some(given) => Some(
            ModelUsage {
                input_tokens: given.prompt_tokens,
                output_tokens: given.completion_tokens,
                cached_input_tokens: match given.cached_tokens {
                    Some(cached) => cached,
                    None => 0,
                },
            },
        ),
        None => None,
    }
}

/// What a message says; an empty text says nothing.
pub open spec fn said(content: Option<String>) -> Option<Seq<char>> {
    match content {
        Some(text) => if text@.len() == 0 {
            None
        } else {
            Some(text@)
        },
        None => None,
    }
}

/// Takes the answer of a response from its first choice, if it has one.
pub fn chat_output(first: Option<ChatChoiceMessage>, usage: Option<OpenAiUsage>) -> (result: Result<
    ModelOutput,
>)
    ensures
        match first {
            None => result is Err && error::is_model(
                result->Err_0,
                "chat completion response did not contain choices"@,
            ),
            Some(message) => match read_calls(
                call_entries(message.tool_calls, message.function_call),
            ) {
                Err(reason) => result is Err && error::is_model(result->Err_0, reason),
                Ok(calls) => result is Ok && result->Ok_0@ == (Answer {
                    assistant_message: said(message.content),
                    tool_calls: calls,
                    usage: usage_of(usage),
                }),
            },
        },
{
    let message = match first {
        Some(message) => message,
        None => return Err(
            EngineError::Model("chat completion response did not contain choices".to_string()),
        ),
    };
    let tool_calls = match parse_tool_calls(message.tool_calls, message.function_call) {
        Ok(calls) => calls,
        Err(failure) => return Err(failure),
    };
    let assistant_message = match message.content {
        Some(text) => if text.as_str().unicode_len() == 0 {
            None
        } else {
            Some(text)
        },
        None => None,
    };
    let usage = match usage {
        Some(given) => Some(
            ModelUsage {
                input_tokens: given.prompt_tokens,
                output_tokens: given.completion_tokens,
                cached_input_tokens: match given.cached_tokens {
                    Some(cached) => cached,
                    None => 0,
                },
            },
        ),
        None => None,
    };
    Ok(ModelOutput { assistant_message, tool_calls, usage })
}

/// Whether an entry of a response can be read as a call.
pub open spec fn is_call(entry: Option<Called>) -> bool {
    match entry {
        Some(called) => !text::blank(called.name) && (called.arguments matches Some(value) ==> (
        json::json_text(value) matches Some(text) ==> !text::blank(text) ==> json::json_canonical(
            text,
        ) is Ok)),
        None => false,
    }
}

/// An accepted response makes one call for each of its entries, in order: of the
/// function that the entry names, with the arguments that it gives, and without
/// an identifier. A response is accepted exactly where every entry is a call, and
/// otherwise refused for the first entry that is none.
pub proof fn every_entry_is_one_call(entries: Seq<Option<Called>>)
    ensures
        match read_calls(entries) {
            Ok(calls) => {
                &&& calls.len() == entries.len()
                &&& forall|i: int|
                    0 <= i < entries.len() ==> {
                        let entry = #[trigger] entries[i];
                        &&& is_call(entry)
                        &&& calls[i].id is None
                        &&& calls[i].name == entry->0.name
                        &&& entry->0.arguments is None ==> calls[i].arguments == "{}"@
                        &&& entry->0.arguments matches Some(value) ==> calls[i].arguments == (
                        match json::json_text(value) {
                            None => value,
                            Some(text) if text::blank(text) => "{}"@,
                            Some(text) => json::json_canonical(text)->Ok_0,
                        })
                    }
            },
            Err(message) => exists|k: int|
                {
                    &&& 0 <= k < entries.len()
                    &&& !is_call(#[trigger] entries[k])
                    &&& forall|i: int| 0 <= i < k ==> is_call(#[trigger] entries[i])
                    &&& entries[k] is None ==> message
                        == "tool call response did not contain function"@
                    &&& entries[k] matches Some(called) ==> message == if text::blank(called.name) {
                        "tool call response contained empty function name"@
                    } else {
                        "failed to parse tool call arguments for "@ + called.name + ": "@
                            + json::json_canonical(json::json_text(called.arguments->0)->0)->Err_0
                    }
                },
        },
    decreases entries.len(),
{
    if entries.len() > 0 {
        let rest = entries.drop_last();
        let last = entries.len() - 1;
        every_entry_is_one_call(rest);
        match read_calls(rest) {
            Err(_) => {
                let k = choose|k: int|
                    0 <= k < rest.len() && !is_call(#[trigger] rest[k]) && (forall|i: int|
                        0 <= i < k ==> is_call(#[trigger] rest[i]));
                assert(entries[k] == rest[k]);
                assert forall|i: int| 0 <= i < k implies is_call(#[trigger] entries[i]) by {
                    assert(rest[i] == entries[i]);
                }
                assert forall|j: int|
                    0 <= j < rest.len() && !is_call(#[trigger] rest[j]) && (forall|i: int|
                        0 <= i < j ==> is_call(#[trigger] rest[i])) implies j == k by {
                    if j < k {
                        assert(is_call(rest[j]));
                    }
                    if k < j {
                        assert(is_call(rest[k]));
                    }
                }
            },
            Ok(earlier) => {
                assert forall|i: int| 0 <= i < last implies is_call(#[trigger] entries[i]) by {
                    assert(rest[i] == entries[i]);
                }
                if let Ok(calls) = read_calls(entries) {
                    assert forall|i: int| 0 <= i < last implies calls[i] == earlier[i] && rest[i]
                        == #[trigger] entries[i] by {}
                } else {
                    assert(!is_call(entries[last]));
                }
            },
        }
    }
}

/// The entries of a response are its tool calls, in order, and then the single
/// function call, if it has one.
pub proof fn entries_are_those_of_the_response(
    tool_calls: Option<Vec<OpenAiToolCall>>,
    function_call: Option<OpenAiFunctionCall>,
)
    ensures
        ({
            let entries = call_entries(tool_calls, function_call);
            let listed = match tool_calls {
                Some(calls) => calls@.len(),
                None => 0,
            };
            &&& entries.len() == listed + if function_call is Some {
                1int
            } else {
                0
            }
            &&& forall|i: int|
                0 <= i < listed ==> #[trigger] entries[i] == (match tool_calls->0@[i].function {
                    Some(called) => Some(called@),
                    None => None,
                })
            &&& function_call matches Some(called) ==> entries.last() == Some(called@)
        }),
{
}

/// A request says everything that the model is given: the identifiers, and each
/// part that is not empty under its title, in this order; and the system prompt
/// in a message of its own, unless it is blank.
pub proof fn requests_say_everything(input: ModelInput)
    ensures
        ({
            let sent = request_messages(input);
            let titled = seq![
                (
                    "Plan"@,
                    match input.plan {
                        Some(plan) => seq![plan@],
                        None => Seq::empty(),
                    },
                ),
                ("Session context"@, text::texts(input.session_context@)),
                ("Memory context"@, text::texts(input.memory_context@)),
                ("Tool context"@, text::texts(input.tool_context@)),
                ("User message"@, seq![input.user_message@]),
            ];
            let sections = titled.filter(|part: (Seq<char>, Seq<Seq<char>>)| part.1.len() > 0);
            &&& sent.last().role == "user"@
            &&& sent.last().content == text::joined(
                seq![
                    "Session ID: "@ + ids::hyphenated(input.session_id.0.bits),
                    "Loop ID: "@ + ids::hyphenated(input.loop_id.0.bits),
                ] + sections.map_values(
                    |part: (Seq<char>, Seq<Seq<char>>)|
                        part.0 + ":\n"@ + text::joined(part.1, "\n"@),
                ),
                "\n\n"@,
            )
            &&& text::blank(input.system_prompt@) <==> sent.len() == 1
            &&& !text::blank(input.system_prompt@) ==> sent.len() == 2 && sent[0] == (Sent {
                role: "system"@,
                content: input.system_prompt@,
            })
        }),
{
    reveal_with_fuel(Seq::filter, 6);
    let titled = seq![
        (
            "Plan"@,
            match input.plan {
                Some(plan) => seq![plan@],
                None => Seq::empty(),
            },
        ),
        ("Session context"@, text::texts(input.session_context@)),
        ("Memory context"@, text::texts(input.memory_context@)),
        ("Tool context"@, text::texts(input.tool_context@)),
        ("User message"@, seq![input.user_message@]),
    ];
    let kind = |part: (Seq<char>, Seq<Seq<char>>)| part.1.len() > 0;
    let write = |part: (Seq<char>, Seq<Seq<char>>)| part.0 + ":\n"@ + text::joined(part.1, "\n"@);
    let identified = seq![
        "Session ID: "@ + ids::hyphenated(input.session_id.0.bits),
        "Loop ID: "@ + ids::hyphenated(input.loop_id.0.bits),
    ];
    let a = titled.take(1);
    let b = titled.take(2);
    let c = titled.take(3);
    let d = titled.take(4);
    assert(titled.drop_last() =~= d);
    assert(d.drop_last() =~= c);
    assert(c.drop_last() =~= b);
    assert(b.drop_last() =~= a);
    assert(a.drop_last() =~= Seq::empty());
    let planned = match input.plan {
        Some(plan) => with_section(identified, "Plan"@, seq![plan@]),
        None => identified,
    };
    assert(planned =~= identified + a.filter(kind).map_values(write));
    let session = with_section(planned, "Session context"@, text::texts(input.session_context@));
    assert(session =~= identified + b.filter(kind).map_values(write));
    let memory = with_section(session, "Memory context"@, text::texts(input.memory_context@));
    assert(memory =~= identified + c.filter(kind).map_values(write));
    let tools = with_section(memory, "Tool context"@, text::texts(input.tool_context@));
    assert(tools =~= identified + d.filter(kind).map_values(write));
    assert(user_sections(input) =~= identified + titled.filter(kind).map_values(write));
}

/// An answer says what the message says, unless that is nothing, and its usage is
/// counted as the response counts it, with nothing cached unless it says so.
pub proof fn answers_tell_what_the_response_tells(
    content: Option<String>,
    usage: Option<OpenAiUsage>,
)
    ensures
        content matches Some(text) ==> (text@.len() > 0 ==> said(content) == Some(text@)),
        content matches Some(text) ==> (text@.len() == 0 ==> said(content) is None),
        content is None ==> said(content) is None,
        usage is None <==> usage_of(usage) is None,
        usage matches Some(given) ==> {
            let told = usage_of(usage)->0;
            &&& told.input_tokens == given.prompt_tokens
            &&& told.output_tokens == given.completion_tokens
            &&& given.cached_tokens matches Some(cached) ==> told.cached_input_tokens == cached
            &&& given.cached_tokens is None ==> told.cached_input_tokens == 0
        },
{
}

/// A provider is asked exactly where the configuration says where it is, which
/// model to ask and under which key.
pub proof fn complete_chat_configurations_are_accepted(config: OpenAiChatConfig)
    ensures
        config.fault() is None <==> !text::blank(config.base_url@) && !text::blank(config.model@)
            && !text::blank(config.api_key@),
{
}

} // verus!
