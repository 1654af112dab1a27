//! Conversation items that travel between the engine and a model.
use vstd::prelude::*;

use crate::ids::{LoopId, SessionId};
use crate::json::JsonValue;
use crate::text;

verus! {

/// A tool call that a model asks for.
#[derive(Debug, PartialEq, Eq)]
pub struct ToolCallRequest {
    /// Correlation id, assigned by the provider or by the engine. It ties the
    /// call to its result.
    pub id: Option<String>,
    pub name: String,
    pub arguments: JsonValue,
}

/// A tool call as a mathematical value.
pub struct ToolCall {
    pub id: Option<Seq<char>>,
    pub name: Seq<char>,
    pub arguments: Seq<char>,
}

impl View for ToolCallRequest {
    type V = ToolCall;

    open spec fn view(&self) -> ToolCall {
        ToolCall { id: text::opt_text(self.id), name: self.name@, arguments: self.arguments@ }
    }
}

impl Clone for ToolCallRequest {
    fn clone(&self) -> (result: Self)
        ensures
            result@ == self@,
    {
        ToolCallRequest {
            id: self.id.clone(),
            name: self.name.clone(),
            arguments: self.arguments.clone(),
        }
    }
}

/// The calls as mathematical values, in order.
pub open spec fn calls_view(calls: Seq<ToolCallRequest>) -> Seq<ToolCall> {
    calls.map_values(|call: ToolCallRequest| call@)
}

/// Copies a list of calls.
pub fn clone_calls(calls: &[ToolCallRequest]) -> (result: Vec<ToolCallRequest>)
    ensures
        calls_view(result@) == calls_view(calls@),
{
    let mut result: Vec<ToolCallRequest> = Vec::new();
    let mut index: usize = 0;
    while index < calls.len()
        invariant
            index <= calls.len(),
            calls_view(result@) == calls_view(calls@.take(index as int)),
        decreases calls.len() - index,
    {
        result.push(calls[index].clone());
        proof {
            assert(calls_view(calls@.take(index + 1)) =~= calls_view(
                calls@.take(index as int),
            ).push(calls@[index as int]@));
            assert(calls_view(result@) =~= calls_view(calls@.take(index + 1)));
        }
        index = index + 1;
    }
    assert(calls@.take(calls@.len() as int) =~= calls@);
    result
}

/// Who speaks.
#[derive(Debug, Clone, Copy, PartialEq, Eq, Structural)]
pub enum ConversationRole {
    System,
    User,
    Assistant,
    Tool,
}

/// One item of a conversation.
#[derive(Debug, PartialEq, Eq)]
pub struct ConversationMessage {
    pub role: ConversationRole,
    pub content: String,
    pub tool_call_id: Option<String>,
    pub tool_calls: Vec<ToolCallRequest>,
}

/// A conversation item as a mathematical value.
pub struct Message {
    pub role: ConversationRole,
    pub content: Seq<char>,
    pub tool_call_id: Option<Seq<char>>,
    pub tool_calls: Seq<ToolCall>,
}

impl View for ConversationMessage {
    type V = Message;

    open spec fn view(&self) -> Message {
        Message {
            role: self.role,
            content: self.content@,
            tool_call_id: text::opt_text(self.tool_call_id),
            tool_calls: calls_view(self.tool_calls@),
        }
    }
}

impl Clone for ConversationMessage {
    fn clone(&self) -> (result: Self)
        ensures
            result@ == self@,
    {
        ConversationMessage {
            role: self.role,
            content: self.content.clone(),
            tool_call_id: self.tool_call_id.clone(),
            tool_calls: clone_calls(self.tool_calls.as_slice()),
        }
    }
}

/// The messages as mathematical values, in order.
pub open spec fn messages_view(messages: Seq<ConversationMessage>) -> Seq<Message> {
    messages.map_values(|message: ConversationMessage| message@)
}

/// Copies a list of messages.
pub fn clone_messages(messages: &[ConversationMessage]) -> (result: Vec<ConversationMessage>)
    ensures
        messages_view(result@) == messages_view(messages@),
{
    let mut result: Vec<ConversationMessage> = Vec::new();
    let mut index: usize = 0;
    while index < messages.len()
        invariant
            index <= messages.len(),
            messages_view(result@) == messages_view(messages@.take(index as int)),
        decreases messages.len() - index,
    {
        result.push(messages[index].clone());
        proof {
            assert(messages_view(messages@.take(index + 1)) =~= messages_view(
                messages@.take(index as int),
            ).push(messages@[index as int]@));
            assert(messages_view(result@) =~= messages_view(messages@.take(index + 1)));
        }
        index = index + 1;
    }
    assert(messages@.take(messages@.len() as int) =~= messages@);
    result
}

/// Copies a list of texts.
pub fn clone_texts(items: &[String]) -> (result: Vec<String>)
    ensures
        result@ == items@,
{
    let mut result: Vec<String> = Vec::new();
    let mut index: usize = 0;
    while index < items.len()
        invariant
            index <= items.len(),
            result@ == items@.take(index as int),
        decreases items.len() - index,
    {
        result.push(items[index].clone());
        assert(items@.take(index + 1) =~= items@.take(index as int).push(items@[index as int]));
        index = index + 1;
    }
    assert(items@.take(items@.len() as int) =~= items@);
    result
}

/// Everything a model is given for one completion.
#[derive(Debug)]
pub struct ModelInput {
    pub session_id: SessionId,
    pub loop_id: LoopId,
    pub system_prompt: String,
    pub session_context: Vec<String>,
    pub memory_context: Vec<String>,
    pub tool_context: Vec<String>,
    /// Durable history owned by the caller, without the current user message.
    pub conversation_history: Vec<ConversationMessage>,
    /// Tool calls and results of the current turn, after the user message.
    pub turn_messages: Vec<ConversationMessage>,
    pub user_message: String,
    pub plan: Option<String>,
}

/// Token usage that a provider reports for one completion.
#[derive(Debug, Clone, Copy, PartialEq, Eq, Structural)]
pub struct ModelUsage {
    /// All prompt tokens, cached ones included.
    pub input_tokens: u32,
    pub output_tokens: u32,
    pub cached_input_tokens: u32,
}

/// What a model answers.
#[derive(Debug)]
pub struct ModelOutput {
    pub assistant_message: Option<String>,
    pub tool_calls: Vec<ToolCallRequest>,
    pub usage: Option<ModelUsage>,
}

/// A model's answer as a mathematical value.
pub struct Answer {
    pub assistant_message: Option<Seq<char>>,
    pub tool_calls: Seq<ToolCall>,
    pub usage: Option<ModelUsage>,
}

impl View for ModelOutput {
    type V = Answer;

    open spec fn view(&self) -> Answer {
        Answer {
            assistant_message: text::opt_text(self.assistant_message),
            tool_calls: calls_view(self.tool_calls@),
            usage: self.usage,
        }
    }
}

impl Clone for ModelOutput {
    fn clone(&self) -> (result: Self)
        ensures
            result@ == self@,
    {
        ModelOutput {
            assistant_message: self.assistant_message.clone(),
            tool_calls: clone_calls(self.tool_calls.as_slice()),
            usage: self.usage,
        }
    }
}

/// Messages and calls that are the same as mathematical values are the same in all
/// that they hold, and a list stands for each of its values in order.
pub proof fn message_views_leave_nothing_out(
    left: ConversationMessage,
    right: ConversationMessage,
    first: ToolCallRequest,
    second: ToolCallRequest,
    messages: Seq<ConversationMessage>,
    calls: Seq<ToolCallRequest>,
)
    ensures
        left@ == right@ ==> {
            &&& left.role == right.role
            &&& left.content@ == right.content@
            &&& text::opt_text(left.tool_call_id) == text::opt_text(right.tool_call_id)
            &&& calls_view(left.tool_calls@) == calls_view(right.tool_calls@)
        },
        first@ == second@ ==> {
            &&& text::opt_text(first.id) == text::opt_text(second.id)
            &&& first.name@ == second.name@
            &&& first.arguments@ == second.arguments@
        },
        messages_view(messages).len() == messages.len(),
        forall|i: int|
            0 <= i < messages.len() ==> #[trigger] messages_view(messages)[i] == messages[i]@,
        calls_view(calls).len() == calls.len(),
        forall|i: int| 0 <= i < calls.len() ==> #[trigger] calls_view(calls)[i] == calls[i]@,
{
}

} // verus!
