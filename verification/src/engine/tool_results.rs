//! What is kept of the results of a round, and what the model is shown.
use vstd::prelude::*;

use crate::domain::raw_node;
use crate::domain::raw_node::{Content, Raw, RawContent, RawNode, RawNodeKind};
use crate::engine::conversation;
use crate::engine::estimator;
use crate::engine::estimator::{estimate_conversation_message, TokenEstimator};
use crate::engine::execution_graph::{ExecutionState, State};
use crate::engine::tool_budget;
use crate::engine::tool_budget::clamp_tool_result_for_model;
use crate::engine::tool_phases;
use crate::engine::tool_phases::PreparedToolCall;
use crate::engine::tool_round;
use crate::engine::tool_round::spend_messages;
use crate::error;
use crate::error::{EngineError, Result};
use crate::float32::Float32;
use crate::ids::{LoopId, RawNodeId, SessionId};
use crate::json;
use crate::json::{JsonValue, Member};
use crate::model::runner;
use crate::model::runner::{ConversationMessage, ConversationRole, Message, ToolCall};
use crate::text;
use crate::text::size_text;
use crate::time::{Timestamp, MAX_SECONDS, NANOS_PER_SECOND};
use crate::tools::executor;
use crate::tools::executor::{ToolCallResult, ToolResult};

verus! {

/// Bits of 0.72: how much a tool result matters when memories are ranked.
pub const TOOL_RESULT_IMPORTANCE_BITS: u32 = 0x3f38_51ec;

/// The text of a member that is a string.
pub open spec fn text_member(object: Seq<char>, key: Seq<char>) -> Option<Seq<char>> {
    match json::json_member(object, key) {
        Some(value) => json::json_text(value),
        None => None,
    }
}

/// The result that a record holds, or why it holds none.
pub open spec fn decoded(content: Content) -> core::result::Result<ToolResult, Seq<char>> {
    match content {
        Content::Text(_) => Err("tool result raw node must store a JSON payload"@),
        Content::Json(object) => {
            let id = json::json_member(object, "tool_call_id"@);
            let absent = id is None || id == Some("null"@);
            if text_member(object, "name"@) is None {
                Err(undecodable("name"@))
            } else if text_member(object, "summary"@) is None {
                Err(undecodable("summary"@))
            } else if json::json_member(object, "content"@) is None {
                Err(undecodable("content"@))
            } else if !absent && text_member(object, "tool_call_id"@) is None {
                Err(undecodable("tool_call_id"@))
            } else {
                Ok(
                    ToolResult {
                        tool_call_id: if absent {
                            None
                        } else {
                            text_member(object, "tool_call_id"@)
                        },
                        name: text_member(object, "name"@)->0,
                        content: json::json_member(object, "content"@)->0,
                        summary: text_member(object, "summary"@)->0,
                    },
                )
            }
        },
    }
}

/// Whether a record is that of a result whose JSON object can be read and whose
/// content keeps its text.
pub open spec fn is_record(content: Content, written: ToolResult) -> bool {
    &&& content == Content::Json(written.encoded())
    &&& json::keeps_text(written.content)
    &&& json::json_canonical(written.encoded()) is Ok
}

/// The members of the JSON object of a result.
spec fn members_of(written: ToolResult) -> Seq<Member> {
    seq![
        Member { key: "content"@, value: written.content },
        Member { key: "name"@, value: json::json_string(written.name) },
        Member { key: "summary"@, value: json::json_string(written.summary) },
        Member { key: "tool_call_id"@, value: executor::optional_json(written.tool_call_id) },
    ]
}

/// The JSON object of a result is made up of its members.
proof fn records_have_members(written: ToolResult)
    requires
        json::keeps_text(written.content),
        json::json_canonical(written.encoded()) is Ok,
    ensures
        json::has_member(written.encoded(), "content"@, written.content),
        json::has_member(written.encoded(), "name"@, json::json_string(written.name)),
        json::has_member(written.encoded(), "summary"@, json::json_string(written.summary)),
        json::has_member(
            written.encoded(),
            "tool_call_id"@,
            executor::optional_json(written.tool_call_id),
        ),
{
    reveal_strlit("{\"content\":");
    reveal_strlit(",\"name\":");
    reveal_strlit(",\"summary\":");
    reveal_strlit(",\"tool_call_id\":");
    reveal_strlit("}");
    reveal_strlit("content");
    reveal_strlit("name");
    reveal_strlit("summary");
    reveal_strlit("tool_call_id");
    let members = members_of(written);
    let two = members.take(2);
    let three = members.take(3);
    assert(members.drop_last() =~= three);
    assert(three.drop_last() =~= two);
    assert(two.drop_last() =~= seq![members[0]]);
    assert(json::members_text(seq![members[0]]) == json::member_text(members[0]));
    assert(json::members_text(two) == json::members_text(two.drop_last()) + seq![',']
        + json::member_text(members[1]));
    assert(json::members_text(three) == json::members_text(two) + seq![','] + json::member_text(
        members[2],
    ));
    assert(json::members_text(members) == json::members_text(three) + seq![',']
        + json::member_text(members[3]));
    assert(json::object_text(members) =~= written.encoded());
    assert(json::are_members(members)) by {
        assert forall|i: int| 0 <= i < members.len() implies json::is_simple_key(
            (#[trigger] members[i]).key,
        ) && json::keeps_text(members[i].value) by {
            if i == 3 && written.tool_call_id is Some {
                assert(json::is_plain(json::json_string(written.tool_call_id->0)));
            }
            assert(json::is_plain(json::json_string(written.name)));
            assert(json::is_plain(json::json_string(written.summary)));
        }
        assert(members[0].key.len() == 7 && members[1].key.len() == 4);
        assert(members[2].key.len() == 7 && members[3].key.len() == 12);
        assert(members[0].key[0] == 'c' && members[2].key[0] == 's');
    }
    assert(members[0] == (Member { key: "content"@, value: written.content }));
    assert(members[1].key == "name"@);
    assert(members[2].key == "summary"@);
    assert(members[3].key == "tool_call_id"@);
}

/// How a record that lacks a field is reported.
pub open spec fn undecodable(field: Seq<char>) -> Seq<char> {
    "failed to decode tool result from raw node: missing or invalid field "@ + field
}

fn refuse_field(field: &str) -> (result: Result<ToolCallResult>)
    ensures
        result is Err && error::is_tool(result->Err_0, undecodable(field@)),
{
    Err(
        EngineError::Tool(
            "failed to decode tool result from raw node: missing or invalid field ".to_string().concat(
                field,
            ),
        ),
    )
}

fn read_text_member(object: &JsonValue, key: &str) -> (result: Option<String>)
    ensures
        text::opt_text(result) == text_member(object@, key@),
        forall|quoted: Seq<char>|
            json::has_member(object@, key@, #[trigger] json::json_string(quoted))
                ==> text_member(object@, key@) == Some(quoted),
{
    match object.member(key) {
        Some(value) => value.as_text(),
        None => None,
    }
}

/// Reads the result that a record holds. What was recorded is read back as it
/// was.
pub fn decode_tool_result_from_raw(node: &RawNode) -> (result: Result<ToolCallResult>)
    ensures
        match decoded(node@.content) {
            Err(message) => result is Err && error::is_tool(result->Err_0, message),
            Ok(found) => result is Ok && result->Ok_0@ == found,
        },
        forall|written: ToolResult| #[trigger]
            is_record(node@.content, written) ==> decoded(node@.content) == Ok::<
                ToolResult,
                Seq<char>,
            >(written),
{
    let object = match &node.content {
        RawContent::Text(_) => return Err(
            EngineError::Tool("tool result raw node must store a JSON payload".to_string()),
        ),
        RawContent::Json(value) => value,
    };
    let ghost payload = node@.content;
    proof {
        assert forall|written: ToolResult| #[trigger] is_record(payload, written) implies {
            &&& json::has_member(object@, "content"@, written.content)
            &&& json::has_member(object@, "name"@, json::json_string(written.name))
            &&& json::has_member(object@, "summary"@, json::json_string(written.summary))
            &&& json::has_member(
                object@,
                "tool_call_id"@,
                executor::optional_json(written.tool_call_id),
            )
        } by {
            records_have_members(written);
        }
    }
    let name = match read_text_member(object, "name") {
        Some(name) => name,
        None => return refuse_field("name"),
    };
    let summary = match read_text_member(object, "summary") {
        Some(summary) => summary,
        None => return refuse_field("summary"),
    };
    let content = match object.member("content") {
        Some(content) => content,
        None => return refuse_field("content"),
    };
    let tool_call_id = match object.member("tool_call_id") {
        None => None,
        Some(value) => if text::same_text(value.as_str(), "null") {
            None
        } else {
            match value.as_text() {
                Some(id) => Some(id),
                None => return refuse_field("tool_call_id"),
            }
        },
    };
    let result = ToolCallResult { tool_call_id, name, content, summary };
    proof {
        assert forall|written: ToolResult| #[trigger] is_record(
            payload,
            written,
        ) implies result@ == written by {
            assert(result@.name == written.name);
            assert(result@.summary == written.summary);
            assert(result@.content == written.content);
            reveal_strlit("null");
            assert("null"@[0] == 'n');
            match written.tool_call_id {
                Some(id) => {
                    assert(json::json_string(id)[0] == '"');
                    assert(json::json_member(object@, "tool_call_id"@) == Some(
                        json::json_string(id),
                    ));
                    assert(result@.tool_call_id == Some(id));
                },
                None => {
                    assert(json::json_member(object@, "tool_call_id"@) == Some("null"@));
                },
            }
            assert(result@ =~= written);
        }
    }
    Ok(result)
}

/// What a call that failed reports.
pub open spec fn failure_result(call: ToolCall, message: Seq<char>) -> ToolResult {
    ToolResult {
        tool_call_id: call.id,
        name: call.name,
        content: json::error_report_text(message),
        summary: call.name + " error="@ + message,
    }
}

/// The result under the id and name of the call; what an executor or a record
/// says about these does not count.
pub open spec fn correlated(result: ToolResult, call: ToolCall) -> ToolResult {
    ToolResult { tool_call_id: call.id, name: call.name, ..result }
}

/// Whether a value is what a call is taken to have returned.
pub open spec fn is_return(
    prepared: PreparedToolCall,
    completed: Option<Result<ToolCallResult>>,
    terminal: Option<EngineError>,
    result: Result<ToolCallResult>,
) -> bool {
    let call = prepared.call@;
    match prepared.cached {
        Some(record) => match decoded(record@.content) {
            Err(message) => result is Err && error::is_tool(result->Err_0, message),
            Ok(found) => result is Ok && result->Ok_0@ == correlated(found, call),
        },
        None => match completed {
            Some(Ok(given)) => result is Ok && result->Ok_0@ == correlated(given@, call),
            Some(Err(failure)) => if tool_phases::is_terminal(failure) {
                result == Err::<ToolCallResult, EngineError>(failure)
            } else {
                result is Ok && result->Ok_0@ == failure_result(call, failure.message())
            },
            None => match terminal {
                Some(failure) => result == Err::<ToolCallResult, EngineError>(failure),
                None => result is Err && error::is_tool(
                    result->Err_0,
                    "missing tool result for index "@ + text::decimal(prepared.index as nat)
                        + " (tool "@ + call.name + ")"@,
                ),
            },
        },
    }
}

/// What a call is taken to have returned: what is recorded of it, what came
/// back, a report of its failure, or the error that ended the round. A recorded
/// result is returned as it was recorded.
pub fn returned_result(
    prepared: &PreparedToolCall,
    completed: Option<Result<ToolCallResult>>,
    terminal: Option<EngineError>,
) -> (result: Result<ToolCallResult>)
    ensures
        is_return(*prepared, completed, terminal, result),
        forall|written: ToolResult|
            prepared.cached is Some && #[trigger] is_record(prepared.cached->0@.content, written)
                ==> result is Ok && result->Ok_0@ == correlated(written, prepared.call@),
{
    let mut found = match &prepared.cached {
        Some(record) => match decode_tool_result_from_raw(record) {
            Ok(found) => found,
            Err(failure) => return Err(failure),
        },
        None => match completed {
            Some(Ok(given)) => given,
            Some(Err(EngineError::Cancelled)) => return Err(EngineError::Cancelled),
            Some(
                Err(EngineError::ToolOutcomeIndeterminate { idempotency_key, reason }),
            ) => return Err(EngineError::ToolOutcomeIndeterminate { idempotency_key, reason }),
            Some(Err(failure)) => {
                let message = failure.to_string();
                ToolCallResult {
                    tool_call_id: prepared.call.id.clone(),
                    name: prepared.call.name.clone(),
                    content: JsonValue::error_report(message.as_str()),
                    summary: prepared.call.name.clone().concat(" error=").concat(
                        message.as_str(),
                    ),
                }
            },
            None => match terminal {
                Some(failure) => return Err(failure),
                None => return Err(
                    EngineError::Tool(
                        "missing tool result for index ".to_string().concat(
                            size_text(prepared.index).as_str(),
                        ).concat(" (tool ").concat(prepared.call.name.as_str()).concat(")"),
                    ),
                ),
            },
        },
    };
    found.tool_call_id = prepared.call.id.clone();
    found.name = prepared.call.name.clone();
    Ok(found)
}

/// Tokens that a content takes of the common allowance.
pub open spec fn extra_used(empty: nat, minimum: nat, content: nat) -> nat {
    conversation::beyond(
        estimator::capped(conversation::beyond(minimum, empty) + content),
        minimum,
    )
}

/// Tokens that a content may take when so many results share an allowance.
pub open spec fn content_allowance(empty: nat, extra: nat, sharing: nat) -> nat {
    estimator::capped(empty + extra / sharing)
}

/// What the model is shown of a result.
pub open spec fn shown_result<E: TokenEstimator + ?Sized>(
    estimator: &E,
    result: ToolResult,
    extra: nat,
    sharing: nat,
) -> ToolResult {
    ToolResult {
        content: tool_budget::shown_content(
            estimator,
            result.content,
            content_allowance(estimator.tokens("{}"@), extra, sharing),
        ),
        ..result
    }
}

/// What is left of the common allowance after a result.
pub open spec fn extra_left<E: TokenEstimator + ?Sized>(
    estimator: &E,
    shown: ToolResult,
    minimum: nat,
    extra: nat,
) -> nat {
    conversation::beyond(
        extra,
        extra_used(estimator.tokens("{}"@), minimum, estimator.tokens(shown.content)),
    )
}

/// Bounds one result for the model: it takes at most an equal part of what the
/// results before it left of the common allowance.
pub fn show_result<E: TokenEstimator + ?Sized>(
    estimator: &E,
    result: ToolCallResult,
    minimum: usize,
    sharing: usize,
    extra: &mut usize,
) -> (shown: ToolCallResult)
    requires
        sharing > 0,
    ensures
        shown@ == shown_result(estimator, result@, *old(extra) as nat, sharing as nat),
        *final(extra) == extra_left(estimator, shown@, minimum as nat, *old(extra) as nat),
{
    let empty: usize = estimator.estimate_text("{}");
    let metadata: usize = minimum.saturating_sub(empty);
    let mut allowance: usize = empty.saturating_add(*extra / sharing);
    let shown = clamp_tool_result_for_model(result, estimator, &mut allowance);
    let tokens: usize = estimator.estimate_text(shown.content.as_str());
    let used: usize = metadata.saturating_add(tokens).saturating_sub(minimum);
    *extra = (*extra).saturating_sub(used);
    shown
}

/// What the model is shown of the results of a round.
pub open spec fn shown_results<E: TokenEstimator + ?Sized>(
    estimator: &E,
    minimums: Seq<nat>,
    results: Seq<ToolResult>,
    extra: nat,
) -> Seq<ToolResult>
    decreases results.len(),
{
    if results.len() == 0 {
        Seq::empty()
    } else {
        let shown = shown_result(estimator, results[0], extra, results.len());
        seq![shown] + shown_results(
            estimator,
            minimums.drop_first(),
            results.drop_first(),
            extra_left(estimator, shown, minimums[0], extra),
        )
    }
}

/// The message that answers a call.
pub open spec fn answer(result: ToolResult) -> Message {
    Message {
        role: ConversationRole::Tool,
        content: result.content,
        tool_call_id: result.tool_call_id,
        tool_calls: Seq::empty(),
    }
}

/// The messages that answer the calls of a round.
pub open spec fn answers(results: Seq<ToolResult>) -> Seq<Message> {
    results.map_values(|result: ToolResult| answer(result))
}

/// The transcript with a round added.
pub open spec fn extended(
    transcript: Seq<Message>,
    assistant_turn: Message,
    results: Seq<ToolResult>,
) -> Seq<Message> {
    transcript.push(assistant_turn) + answers(results)
}

/// The source that a tool result is recorded under.
pub open spec fn tool_source(name: Seq<char>) -> Seq<char> {
    "tool:"@ + name
}

/// The record of a tool result.
pub fn tool_result_node(
    session_id: SessionId,
    loop_id: LoopId,
    result: &ToolCallResult,
    operation_key: &String,
) -> (node: RawNode)
    ensures
        node@ == Raw::fresh(
            node.id,
            node.timestamp,
            RawNodeKind::ToolResult,
            Some(session_id),
            Some(loop_id),
            tool_source(result@.name),
            Content::Json(result@.encoded()),
            Float32 { bits: TOOL_RESULT_IMPORTANCE_BITS },
            seq!["tool"@],
        ).keyed(operation_key@),
        0 <= node.timestamp.secs <= MAX_SECONDS,
        node.timestamp.nanos < NANOS_PER_SECOND,
{
    let mut tags: Vec<String> = Vec::new();
    tags.push("tool".to_string());
    assert(text::texts(tags@) =~= seq!["tool"@]);
    RawNode::json(
        RawNodeKind::ToolResult,
        Some(session_id),
        Some(loop_id),
        "tool:".to_string().concat(result.name.as_str()),
        JsonValue::from_compact(result.encode()),
        Float32 { bits: TOOL_RESULT_IMPORTANCE_BITS },
        tags,
    ).with_operation_key(operation_key.clone())
}

/// How many nodes stand in front of the first one that is later than an instant.
pub open spec fn first_after(nodes: Seq<Raw>, timestamp: Timestamp) -> nat
    decreases nodes.len(),
{
    if nodes.len() == 0 || timestamp.before(nodes[0].timestamp) {
        0
    } else {
        1 + first_after(nodes.drop_first(), timestamp)
    }
}

/// An identifier added to a list, unless it is there.
pub open spec fn with_id(ids: Seq<RawNodeId>, id: RawNodeId) -> Seq<RawNodeId> {
    if ids.contains(id) {
        ids
    } else {
        ids.push(id)
    }
}

/// Whether a node of this identifier is in a list.
pub open spec fn has_node(nodes: Seq<Raw>, id: RawNodeId) -> bool {
    exists|i: int| 0 <= i < nodes.len() && (#[trigger] nodes[i]).id == id
}

/// A node added to a list that is kept in the order of time, behind nodes of
/// the same instant, unless it is there.
pub open spec fn with_node(nodes: Seq<Raw>, node: Raw) -> Seq<Raw> {
    if has_node(nodes, node.id) {
        nodes
    } else {
        nodes.insert(first_after(nodes, node.timestamp) as int, node)
    }
}

/// The state with a recorded node.
pub open spec fn with_record(state: State, node: Raw) -> State {
    State {
        persisted_raw_ids: with_id(state.persisted_raw_ids, node.id),
        tool_result_ids: if node.kind == RawNodeKind::ToolResult {
            with_id(state.tool_result_ids, node.id)
        } else {
            state.tool_result_ids
        },
        recent_session: with_node(state.recent_session, node),
        ..state
    }
}

/// Whether a list of identifiers holds one.
pub fn contains_id(ids: &[RawNodeId], id: RawNodeId) -> (result: bool)
    ensures
        result == ids@.contains(id),
{
    let mut index: usize = 0;
    while index < ids.len()
        invariant
            index <= ids.len(),
            forall|i: int| 0 <= i < index ==> #[trigger] ids@[i] != id,
        decreases ids.len() - index,
    {
        if ids[index] == id {
            assert(ids@[index as int] == id);
            return true;
        }
        index = index + 1;
    }
    false
}

/// Notes a recorded node in the state: its identifier, and the node itself in
/// the session view, at its place in time. A node that is there is not added
/// again.
pub fn push_raw_node_into_state(state: &mut ExecutionState, node: RawNode)
    ensures
        final(state)@ == with_record(old(state)@, node@),
{
    let ghost before = state@;
    if !contains_id(state.persisted_raw_ids.as_slice(), node.id) {
        state.persisted_raw_ids.push(node.id);
    }
    if node.kind == RawNodeKind::ToolResult {
        if !contains_id(state.tool_result_ids.as_slice(), node.id) {
            state.tool_result_ids.push(node.id);
        }
    }
    let ghost session = before.recent_session;
    let mut index: usize = 0;
    while index < state.recent_session.len()
        invariant
            index <= state.recent_session.len(),
            session == raw_node::raws(state.recent_session@),
            session == before.recent_session,
            before == old(state)@,
            forall|i: int| 0 <= i < index ==> (#[trigger] session[i]).id != node@.id,
            state@ == (State {
                persisted_raw_ids: with_id(before.persisted_raw_ids, node@.id),
                tool_result_ids: if node@.kind == RawNodeKind::ToolResult {
                    with_id(before.tool_result_ids, node@.id)
                } else {
                    before.tool_result_ids
                },
                ..before
            }),
        decreases state.recent_session.len() - index,
    {
        assert(session[index as int] == state.recent_session@[index as int]@);
        if state.recent_session[index].id == node.id {
            assert(has_node(session, node@.id));
            return ;
        }
        index = index + 1;
    }
    assert(!has_node(session, node@.id));
    let mut position: usize = 0;
    assert(session.skip(0) =~= session);
    while position < state.recent_session.len() && !node.timestamp.is_before(
        &state.recent_session[position].timestamp,
    )
        invariant
            position <= state.recent_session.len(),
            session == raw_node::raws(state.recent_session@),
            session == before.recent_session,
            position + first_after(session.skip(position as int), node@.timestamp)
                == first_after(session, node@.timestamp),
            state@ == (State {
                persisted_raw_ids: with_id(before.persisted_raw_ids, node@.id),
                tool_result_ids: if node@.kind == RawNodeKind::ToolResult {
                    with_id(before.tool_result_ids, node@.id)
                } else {
                    before.tool_result_ids
                },
                ..before
            }),
        decreases state.recent_session.len() - position,
    {
        proof {
            assert(session.skip(position as int)[0] == state.recent_session@[position as int]@);
            assert(session.skip(position as int).drop_first() =~= session.skip(position + 1));
        }
        position = position + 1;
    }
    proof {
        if position < state.recent_session.len() {
            assert(session.skip(position as int)[0] == state.recent_session@[position as int]@);
        }
        assert(first_after(session.skip(position as int), node@.timestamp) == 0);
    }
    state.recent_session.insert(position, node);
    assert(raw_node::raws(state.recent_session@) =~= session.insert(position as int, node@));
}

/// Whether nodes stand in the order of time.
pub open spec fn in_time_order(nodes: Seq<Raw>) -> bool {
    forall|i: int, j: int|
        0 <= i < j < nodes.len() ==> !(#[trigger] nodes[j]).timestamp.before(
            (#[trigger] nodes[i]).timestamp,
        )
}

proof fn first_after_divides(nodes: Seq<Raw>, timestamp: Timestamp)
    ensures
        first_after(nodes, timestamp) <= nodes.len(),
        forall|i: int|
            0 <= i < first_after(nodes, timestamp) ==> !timestamp.before(
                (#[trigger] nodes[i]).timestamp,
            ),
        first_after(nodes, timestamp) < nodes.len() ==> timestamp.before(
            nodes[first_after(nodes, timestamp) as int].timestamp,
        ),
    decreases nodes.len(),
{
    if nodes.len() > 0 && !timestamp.before(nodes[0].timestamp) {
        let rest = nodes.drop_first();
        first_after_divides(rest, timestamp);
        assert forall|i: int| 0 <= i < first_after(nodes, timestamp) implies !timestamp.before(
            (#[trigger] nodes[i]).timestamp,
        ) by {
            if i > 0 {
                assert(rest[i - 1] == nodes[i]);
            }
        }
    }
}

/// Recording keeps the session view in the order of time, and a node that is
/// recorded twice appears once.
pub proof fn recording_keeps_time_order(state: State, node: Raw)
    requires
        in_time_order(state.recent_session),
    ensures
        in_time_order(with_record(state, node).recent_session),
        with_record(with_record(state, node), node) == with_record(state, node),
{
    let nodes = state.recent_session;
    let after = with_node(nodes, node);
    if !has_node(nodes, node.id) {
        first_after_divides(nodes, node.timestamp);
        let place = first_after(nodes, node.timestamp) as int;
        assert(after[place] == node);
        assert(has_node(after, node.id));
        assert forall|i: int, j: int| 0 <= i < j < after.len() implies !(
        #[trigger] after[j]).timestamp.before((#[trigger] after[i]).timestamp) by {
            let a = if i < place {
                i
            } else {
                i - 1
            };
            let b = if j < place {
                j
            } else {
                j - 1
            };
            if i != place {
                assert(after[i] == nodes[a]);
            }
            if j != place {
                assert(after[j] == nodes[b]);
            }
            if i == place && b > place {
                assert(!nodes[b].timestamp.before(nodes[place].timestamp));
            }
        }
    }
    let once = with_id(state.persisted_raw_ids, node.id);
    if !state.persisted_raw_ids.contains(node.id) {
        assert(once[once.len() - 1] == node.id);
    }
    let tools = with_id(state.tool_result_ids, node.id);
    if !state.tool_result_ids.contains(node.id) {
        assert(tools[tools.len() - 1] == node.id);
    }
    assert(with_record(with_record(state, node), node) =~= with_record(state, node));
}

/// The state with a result of the round.
pub open spec fn with_result(state: State, record: Option<Raw>, shown: ToolResult) -> State {
    let recorded = match record {
        Some(node) => with_record(
            state,
            Raw { content: Content::Json(shown.encoded()), ..node },
        ),
        None => state,
    };
    State { tool_results: recorded.tool_results.push(shown), ..recorded }
}

/// Notes a result of the round in the state. The session view holds what the
/// model is shown; what the repository holds stays complete.
pub fn record_tool_result(
    state: &mut ExecutionState,
    record: Option<RawNode>,
    shown: ToolCallResult,
)
    ensures
        final(state)@ == with_result(
            old(state)@,
            match record {
                Some(node) => Some(node@),
                None => None,
            },
            shown@,
        ),
{
    if let Some(node) = record {
        let mut node = node;
        node.content = RawContent::Json(JsonValue::from_compact(shown.encode()));
        push_raw_node_into_state(state, node);
    }
    let ghost before = executor::results_view(state.tool_results@);
    state.tool_results.push(shown);
    assert(executor::results_view(state.tool_results@) =~= before.push(shown@));
}

/// The state after a round that fits.
pub open spec fn with_round(
    state: State,
    assistant_turn: Message,
    results: Seq<ToolResult>,
    round: u32,
) -> State {
    State {
        turn_messages: extended(state.turn_messages, assistant_turn, results),
        tool_rounds_completed: round,
        pending_tool_calls: Seq::empty(),
        ..state
    }
}

/// Closes a round: the transcript gets the assistant's turn and an answer to
/// each call, and the calls are no longer pending. A transcript that is too
/// long is refused and leaves the calls pending.
pub fn close_round<E: TokenEstimator + ?Sized>(
    estimator: &E,
    state: &mut ExecutionState,
    assistant_turn: ConversationMessage,
    results: Vec<ToolCallResult>,
    round: u32,
    reserve: usize,
) -> (result: Result<()>)
    ensures
        ({
            let shown = executor::results_view(results@);
            let transcript = extended(old(state)@.turn_messages, assistant_turn@, shown);
            let tokens = estimator::messages_tokens(estimator, transcript);
            if tokens > reserve {
                result is Err && error::is_configuration(
                    result->Err_0,
                    "bounded tool transcript used "@ + text::decimal(estimator::capped(tokens))
                        + " tokens, exceeding reserve_tools="@ + text::decimal(reserve as nat)
                        + " "@,
                ) && final(state)@ == (State { turn_messages: transcript, ..old(state)@ })
            } else {
                result is Ok && final(state)@ == with_round(
                    old(state)@,
                    assistant_turn@,
                    shown,
                    round,
                )
            }
        }),
{
    let ghost before = state@;
    let ghost start = before.turn_messages.push(assistant_turn@);
    let ghost shown = executor::results_view(results@);
    state.turn_messages.push(assistant_turn);
    assert(runner::messages_view(state.turn_messages@) =~= start);
    assert(start + answers(shown.take(0)) =~= start);
    let mut index: usize = 0;
    while index < results.len()
        invariant
            index <= results.len(),
            shown == executor::results_view(results@),
            runner::messages_view(state.turn_messages@) == start + answers(
                shown.take(index as int),
            ),
            state@ == (State { turn_messages: state@.turn_messages, ..before }),
        decreases results.len() - index,
    {
        let ghost messages = runner::messages_view(state.turn_messages@);
        let message = ConversationMessage {
            role: ConversationRole::Tool,
            content: results[index].content.to_string(),
            tool_call_id: results[index].tool_call_id.clone(),
            tool_calls: Vec::new(),
        };
        proof {
            assert(message@.tool_calls =~= Seq::<ToolCall>::empty());
            assert(message@ == answer(shown[index as int]));
        }
        state.turn_messages.push(message);
        proof {
            assert(runner::messages_view(state.turn_messages@) =~= messages.push(message@));
            assert(answers(shown.take(index + 1)) =~= answers(shown.take(index as int)).push(
                message@,
            ));
        }
        index = index + 1;
    }
    assert(shown.take(shown.len() as int) =~= shown);
    let transcript: usize = estimate_transcript(estimator, state.turn_messages.as_slice());
    if spend_messages(estimator, state.turn_messages.as_slice(), reserve).is_none() {
        return Err(
            EngineError::Configuration(
                "bounded tool transcript used ".to_string().concat(
                    size_text(transcript).as_str(),
                ).concat(" tokens, exceeding reserve_tools=").concat(
                    size_text(reserve).as_str(),
                ).concat(" "),
            ),
        );
    }
    state.tool_rounds_completed = round;
    state.pending_tool_calls = Vec::new();
    assert(runner::calls_view(state.pending_tool_calls@) =~= Seq::<ToolCall>::empty());
    Ok(())
}

fn estimate_transcript<E: TokenEstimator + ?Sized>(
    estimator: &E,
    messages: &[ConversationMessage],
) -> (count: usize)
    ensures
        count == estimator::capped(
            estimator::messages_tokens(estimator, runner::messages_view(messages@)),
        ),
{
    let ghost all = runner::messages_view(messages@);
    let mut count: usize = 0;
    let mut index: usize = 0;
    assert(all.take(0) =~= Seq::<Message>::empty());
    while index < messages.len()
        invariant
            index <= messages.len(),
            all == runner::messages_view(messages@),
            count == estimator::capped(
                estimator::messages_tokens(estimator, all.take(index as int)),
            ),
        decreases messages.len() - index,
    {
        count = count.saturating_add(estimate_conversation_message(estimator, &messages[index]));
        proof {
            assert(all.take(index + 1).drop_last() =~= all.take(index as int));
            assert(all.take(index + 1).last() == messages@[index as int]@);
        }
        index = index + 1;
    }
    assert(all.take(all.len() as int) =~= all);
    count
}

/// What the assistant is shown to have said and called stays within its part.
proof fn shown_turn_fits<E: TokenEstimator + ?Sized>(
    estimator: &E,
    said: Seq<char>,
    calls: Seq<ToolCall>,
    variable: nat,
)
    requires
        estimator::message_tokens(
            estimator,
            tool_budget::bare_calls(tool_budget::emptied(calls)),
        ) + variable <= usize::MAX,
    ensures
        estimator::message_tokens(
            estimator,
            tool_round::shown_turn(estimator, said, calls, variable),
        ) <= estimator::message_tokens(
            estimator,
            tool_budget::bare_calls(tool_budget::emptied(calls)),
        ) + variable / 3,
{
    let minimum = estimator::message_tokens(
        estimator,
        tool_budget::bare_calls(tool_budget::emptied(calls)),
    );
    let shown = tool_budget::shown_calls(estimator, calls, variable / 3 / 2);
    tool_budget::shown_calls_fit(estimator, calls, variable / 3 / 2);
    let spent = estimator::message_tokens(estimator, tool_budget::bare_calls(shown));
    let budget = conversation::beyond(minimum + variable / 3, spent);
    let content = tool_budget::truncated(estimator, said, budget);
    tool_budget::truncated_text_fits(estimator, said, budget);
    if content.len() == 0 {
        assert(content =~= Seq::<char>::empty());
    }
}

proof fn total_first(counts: Seq<nat>)
    requires
        counts.len() > 0,
    ensures
        tool_round::total(counts) == counts[0] + tool_round::total(counts.drop_first()),
    decreases counts.len(),
{
    if counts.len() > 1 {
        total_first(counts.drop_last());
        assert(counts.drop_last().drop_first() =~= counts.drop_first().drop_last());
        assert(counts.drop_first().last() == counts.last());
    } else {
        assert(counts.drop_last() =~= Seq::<nat>::empty());
        assert(counts.drop_first() =~= Seq::<nat>::empty());
    }
}

/// One answer takes its minimum and what it uses of the common allowance, and
/// it uses no more than its part.
proof fn shown_answer_fits<E: TokenEstimator + ?Sized>(
    estimator: &E,
    result: ToolResult,
    minimum: nat,
    extra: nat,
    sharing: nat,
)
    requires
        sharing > 0,
        result.tool_call_id is Some,
        extra <= usize::MAX,
        minimum == estimator::message_tokens(
            estimator,
            tool_budget::empty_answer(result.tool_call_id->0),
        ),
    ensures
        ({
            let shown = shown_result(estimator, result, extra, sharing);
            estimator::message_tokens(estimator, answer(shown)) + extra_left(
                estimator,
                shown,
                minimum,
                extra,
            ) <= minimum + extra
        }),
{
    let empty = estimator.tokens("{}"@);
    let allowance = content_allowance(empty, extra, sharing);
    let shown = shown_result(estimator, result, extra, sharing);
    assert(extra / sharing <= extra) by (nonlinear_arith)
        requires
            sharing > 0,
    ;
    let none = Seq::<ToolCall>::empty();
    assert(estimator::calls_tokens(estimator, none) == 0);
    if empty <= allowance {
        tool_budget::shown_content_fits(estimator, result.content, allowance);
    }
}

/// The answers of a round take their minimums and the common allowance at most.
proof fn shown_answers_fit<E: TokenEstimator + ?Sized>(
    estimator: &E,
    minimums: Seq<nat>,
    results: Seq<ToolResult>,
    extra: nat,
)
    requires
        minimums.len() == results.len(),
        extra <= usize::MAX,
        forall|i: int|
            0 <= i < results.len() ==> (#[trigger] results[i]).tool_call_id is Some && minimums[i]
                == estimator::message_tokens(
                estimator,
                tool_budget::empty_answer(results[i].tool_call_id->0),
            ),
    ensures
        estimator::messages_tokens(
            estimator,
            answers(shown_results(estimator, minimums, results, extra)),
        ) <= tool_round::total(minimums) + extra,
        shown_results(estimator, minimums, results, extra).len() == results.len(),
    decreases results.len(),
{
    let all = shown_results(estimator, minimums, results, extra);
    if results.len() == 0 {
        assert(answers(all) =~= Seq::<Message>::empty());
    } else {
        let shown = shown_result(estimator, results[0], extra, results.len());
        let left = extra_left(estimator, shown, minimums[0], extra);
        let rest = shown_results(
            estimator,
            minimums.drop_first(),
            results.drop_first(),
            left,
        );
        shown_answer_fits(estimator, results[0], minimums[0], extra, results.len());
        assert forall|i: int| 0 <= i < results.drop_first().len() implies (
        #[trigger] results.drop_first()[i]).tool_call_id is Some && minimums.drop_first()[i]
            == estimator::message_tokens(
            estimator,
            tool_budget::empty_answer(results.drop_first()[i].tool_call_id->0),
        ) by {
            assert(results.drop_first()[i] == results[i + 1]);
        }
        shown_answers_fit(estimator, minimums.drop_first(), results.drop_first(), left);
        assert(answers(all) =~= seq![answer(shown)] + answers(rest));
        estimator::messages_tokens_add(estimator, seq![answer(shown)], answers(rest));
        assert(seq![answer(shown)].drop_last() =~= Seq::<Message>::empty());
        reveal_with_fuel(estimator::messages_tokens, 2);
        total_first(minimums);
    }
}

/// A round that is planned before any tool runs always fits: whatever the
/// tools return, what the model is shown of the round leaves the transcript
/// within its reserve.
pub proof fn planned_rounds_fit<E: TokenEstimator + ?Sized>(
    estimator: &E,
    transcript: Seq<Message>,
    said: Seq<char>,
    calls: Seq<ToolCall>,
    reserve: nat,
    results: Seq<ToolResult>,
)
    requires
        reserve <= usize::MAX,
        tool_round::planned(estimator, transcript, said, calls, reserve) is Ok,
        results.len() == calls.len(),
        forall|i: int|
            0 <= i < calls.len() ==> (#[trigger] calls[i]).id is Some && results[i].tool_call_id
                == calls[i].id,
    ensures
        ({
            let plan = tool_round::planned(estimator, transcript, said, calls, reserve)->Ok_0;
            let shown = shown_results(estimator, plan.minimums, results, plan.extra);
            estimator::messages_tokens(
                estimator,
                extended(transcript, plan.assistant_turn, shown),
            ) <= reserve
        }),
{
    let plan = tool_round::planned(estimator, transcript, said, calls, reserve)->Ok_0;
    let used = estimator::messages_tokens(estimator, transcript);
    let available = (reserve - used) as nat;
    let assistant = estimator::message_tokens(
        estimator,
        tool_budget::bare_calls(tool_budget::emptied(calls)),
    );
    let minimum = estimator::capped(
        assistant + estimator::capped(tool_round::total(plan.minimums)),
    );
    shown_turn_fits(estimator, said, calls, (available - minimum) as nat);
    assert forall|i: int| 0 <= i < results.len() implies (#[trigger] results[i]).tool_call_id is Some
        && plan.minimums[i] == estimator::message_tokens(
        estimator,
        tool_budget::empty_answer(results[i].tool_call_id->0),
    ) by {
        assert(calls[i].id is Some);
    }
    shown_answers_fit(estimator, plan.minimums, results, plan.extra);
    let shown = shown_results(estimator, plan.minimums, results, plan.extra);
    let start = transcript.push(plan.assistant_turn);
    assert(start.drop_last() =~= transcript);
    estimator::messages_tokens_add(estimator, start, answers(shown));
}

/// Every call of a round is answered once, in the order of the calls, under
/// its own correlation id.
pub proof fn rounds_answer_their_calls<E: TokenEstimator + ?Sized>(
    estimator: &E,
    minimums: Seq<nat>,
    results: Seq<ToolResult>,
    extra: nat,
    k: int,
)
    requires
        0 <= k < results.len(),
    ensures
        shown_results(estimator, minimums, results, extra).len() == results.len(),
        answers(shown_results(estimator, minimums, results, extra))[k].tool_call_id
            == results[k].tool_call_id,
        answers(shown_results(estimator, minimums, results, extra))[k].role
            == ConversationRole::Tool,
    decreases results.len(),
{
    let shown = shown_result(estimator, results[0], extra, results.len());
    let left = extra_left(estimator, shown, minimums[0], extra);
    let rest = shown_results(estimator, minimums.drop_first(), results.drop_first(), left);
    let all = shown_results(estimator, minimums, results, extra);
    if results.len() > 1 {
        if k > 0 {
            rounds_answer_their_calls(
                estimator,
                minimums.drop_first(),
                results.drop_first(),
                left,
                k - 1,
            );
            assert(answers(all)[k] == answers(rest)[k - 1]);
        } else {
            rounds_answer_their_calls(
                estimator,
                minimums.drop_first(),
                results.drop_first(),
                left,
                0,
            );
        }
    } else {
        assert(rest =~= Seq::<ToolResult>::empty());
    }
}

/// A recorded node stands in the session once: where it stood already nothing
/// moves, and otherwise it comes after all nodes that are not later and before
/// all that are. Its identifier is kept among those that were persisted, and
/// among those of tool results where it is one. Nothing else changes.
pub proof fn recording_adds_the_node(state: State, node: Raw)
    requires
        in_time_order(state.recent_session),
    ensures
        ({
            let after = with_record(state, node);
            let old = state.recent_session;
            let known = old.map_values(|other: Raw| other.id).contains(node.id);
            &&& after == (State {
                recent_session: after.recent_session,
                persisted_raw_ids: after.persisted_raw_ids,
                tool_result_ids: after.tool_result_ids,
                ..state
            })
            &&& known ==> after.recent_session == old
            &&& !known ==> exists|place: int|
                {
                    &&& 0 <= place <= old.len()
                    &&& after.recent_session == #[trigger] old.insert(place, node)
                    &&& forall|i: int|
                        0 <= i < place ==> !node.timestamp.before((#[trigger] old[i]).timestamp)
                    &&& forall|i: int|
                        place <= i < old.len() ==> node.timestamp.before(
                            (#[trigger] old[i]).timestamp,
                        )
                }
            &&& after.persisted_raw_ids == if state.persisted_raw_ids.contains(node.id) {
                state.persisted_raw_ids
            } else {
                state.persisted_raw_ids.push(node.id)
            }
            &&& after.tool_result_ids == if node.kind != RawNodeKind::ToolResult
                || state.tool_result_ids.contains(node.id) {
                state.tool_result_ids
            } else {
                state.tool_result_ids.push(node.id)
            }
        }),
{
    let old = state.recent_session;
    let known = old.map_values(|other: Raw| other.id);
    if known.contains(node.id) {
        let k = choose|k: int| 0 <= k < known.len() && known[k] == node.id;
        assert(old[k].id == node.id);
    } else {
        if has_node(old, node.id) {
            let k = choose|k: int| 0 <= k < old.len() && (#[trigger] old[k]).id == node.id;
            assert(known[k] == node.id);
        }
        place_in_time(old, node.timestamp);
        let place = first_after(old, node.timestamp) as int;
        assert(with_record(state, node).recent_session == old.insert(place, node));
    }
}

proof fn place_in_time(nodes: Seq<Raw>, timestamp: Timestamp)
    requires
        in_time_order(nodes),
    ensures
        first_after(nodes, timestamp) <= nodes.len(),
        forall|i: int|
            0 <= i < first_after(nodes, timestamp) ==> !timestamp.before(
                (#[trigger] nodes[i]).timestamp,
            ),
        forall|i: int|
            first_after(nodes, timestamp) <= i < nodes.len() ==> timestamp.before(
                (#[trigger] nodes[i]).timestamp,
            ),
    decreases nodes.len(),
{
    if nodes.len() > 0 {
        if timestamp.before(nodes[0].timestamp) {
            assert forall|i: int| 0 <= i < nodes.len() implies timestamp.before(
                (#[trigger] nodes[i]).timestamp,
            ) by {
                if i > 0 {
                    assert(!nodes[i].timestamp.before(nodes[0].timestamp));
                }
            }
        } else {
            let rest = nodes.drop_first();
            assert forall|i: int, j: int| 0 <= i < j < rest.len() implies !(
            #[trigger] rest[j]).timestamp.before((#[trigger] rest[i]).timestamp) by {
                assert(!nodes[j + 1].timestamp.before(nodes[i + 1].timestamp));
            }
            place_in_time(rest, timestamp);
            let count = first_after(nodes, timestamp);
            assert forall|i: int| 0 <= i < count implies !timestamp.before(
                (#[trigger] nodes[i]).timestamp,
            ) by {
                if i > 0 {
                    assert(rest[i - 1] == nodes[i]);
                }
            }
            assert forall|i: int| count <= i < nodes.len() implies timestamp.before(
                (#[trigger] nodes[i]).timestamp,
            ) by {
                assert(rest[i - 1] == nodes[i]);
            }
        }
    }
}

/// A shown result is noted as it is shown, beside a record that says the same. A
/// round that is closed leaves no call pending and adds to the turn what the
/// assistant said and one answer for each result, in order.
pub proof fn closed_rounds_hold_every_answer(
    state: State,
    record: Option<Raw>,
    shown: ToolResult,
    assistant_turn: Message,
    results: Seq<ToolResult>,
    round: u32,
)
    ensures
        ({
            let noted = with_result(state, record, shown);
            &&& noted.tool_results == state.tool_results.push(shown)
            &&& record is None ==> noted == (State { tool_results: noted.tool_results, ..state })
            &&& record matches Some(node) ==> noted == (State {
                tool_results: noted.tool_results,
                ..with_record(state, Raw { content: Content::Json(shown.encoded()), ..node })
            })
        }),
        ({
            let closed = with_round(state, assistant_turn, results, round);
            let before = state.turn_messages.len();
            &&& closed == (State {
                turn_messages: closed.turn_messages,
                tool_rounds_completed: round,
                pending_tool_calls: Seq::empty(),
                ..state
            })
            &&& closed.turn_messages.len() == before + 1 + results.len()
            &&& closed.turn_messages.take(before as int) == state.turn_messages
            &&& closed.turn_messages[before as int] == assistant_turn
            &&& forall|i: int|
                0 <= i < results.len() ==> {
                    let message = closed.turn_messages[before + 1 + i];
                    &&& message.role == ConversationRole::Tool
                    &&& message.content == (#[trigger] results[i]).content
                    &&& message.tool_call_id == results[i].tool_call_id
                    &&& message.tool_calls.len() == 0
                }
        }),
{
    let closed = with_round(state, assistant_turn, results, round);
    assert(closed.turn_messages.take(state.turn_messages.len() as int) =~= state.turn_messages);
}

/// Every call gets a result of its own: it carries the identifier and the name
/// of the call and says what the tool, or the record of an earlier attempt, says.
/// A tool that failed without ending the round is answered with its failure, and
/// a failure that ends the round is passed on as it is.
pub proof fn calls_get_their_own_results(
    prepared: PreparedToolCall,
    completed: Option<Result<ToolCallResult>>,
    terminal: Option<EngineError>,
    result: Result<ToolCallResult>,
)
    requires
        is_return(prepared, completed, terminal, result),
    ensures
        result matches Ok(given) ==> given@.tool_call_id == prepared.call@.id && given@.name
            == prepared.call@.name,
        prepared.cached is None ==> (completed matches Some(Ok(told)) ==> {
            &&& result is Ok
            &&& result->Ok_0@.content == told@.content
            &&& result->Ok_0@.summary == told@.summary
        }),
        prepared.cached is None ==> (completed matches Some(Err(failure)) ==> if failure is Cancelled
            || failure is ToolOutcomeIndeterminate {
            result == Err::<ToolCallResult, EngineError>(failure)
        } else {
            &&& result is Ok
            &&& result->Ok_0@.content == json::error_report_text(failure.message())
            &&& result->Ok_0@.summary == prepared.call@.name + " error="@ + failure.message()
        }),
        prepared.cached is None && completed is None ==> result is Err,
{
}

/// A result that takes no more than an equal share of what may be spent beyond
/// the least is shown whole, and of every result the name, the identifier and the
/// summary are kept.
pub proof fn small_results_are_shown_whole<E: TokenEstimator + ?Sized>(
    estimator: &E,
    minimums: Seq<nat>,
    results: Seq<ToolResult>,
    extra: nat,
    k: int,
)
    requires
        0 <= k < results.len(),
        minimums.len() == results.len(),
        forall|i: int|
            0 <= i < minimums.len() ==> #[trigger] minimums[i] >= estimator.tokens("{}"@),
        estimator.tokens("{}"@) + extra <= usize::MAX,
    ensures
        ({
            let shown = shown_results(estimator, minimums, results, extra);
            &&& shown.len() == results.len()
            &&& shown[k].name == results[k].name
            &&& shown[k].tool_call_id == results[k].tool_call_id
            &&& shown[k].summary == results[k].summary
            &&& estimator.tokens(results[k].content) <= estimator.tokens("{}"@) + extra
                / results.len() ==> shown[k] == results[k]
        }),
    decreases results.len(),
{
    let count = results.len();
    let share = extra / count;
    let empty = estimator.tokens("{}"@);
    let first = shown_result(estimator, results[0], extra, count);
    let left = extra_left(estimator, first, minimums[0], extra);
    let rest = results.drop_first();
    rounds_answer_their_calls(estimator, minimums, results, extra, k);
    let shown = shown_results(estimator, minimums, results, extra);
    assert(shown == seq![first] + shown_results(estimator, minimums.drop_first(), rest, left));
    assert(share <= extra) by (nonlinear_arith)
        requires
            share == extra / count,
            count > 0,
    ;
    tool_budget::content_that_fits_is_shown_whole(estimator, results[0].content, empty + share);
    if k > 0 {
        assert forall|i: int| 0 <= i < minimums.drop_first().len() implies
            #[trigger] minimums.drop_first()[i] >= empty by {
            assert(minimums.drop_first()[i] == minimums[i + 1]);
        }
        tool_budget::shown_content_fits(estimator, results[0].content, empty + share);
        assert(minimums[0] >= empty);
        small_results_are_shown_whole(estimator, minimums.drop_first(), rest, left, k - 1);
        assert(rest[k - 1] == results[k]);
        assert(share * count <= extra) by (nonlinear_arith)
            requires
                share == extra / count,
                count > 0,
        ;
        assert(left + share >= extra);
        let others = (count - 1) as nat;
        assert(share * others <= left) by (nonlinear_arith)
            requires
                share * count <= extra,
                others == count - 1,
                left + share >= extra,
        ;
        assert(share <= left / others) by (nonlinear_arith)
            requires
                share * others <= left,
                others > 0,
        ;
    }
}

/// A record is read as it says: its name, its summary and its content, and its
/// identifier where it has one. A record that leaves out one of the first three,
/// or has an identifier that is no text, is refused.
pub proof fn records_are_read_as_they_say(object: Seq<char>)
    ensures
        ({
            let name = json::json_member(object, "name"@);
            let summary = json::json_member(object, "summary"@);
            let content = json::json_member(object, "content"@);
            let id = json::json_member(object, "tool_call_id"@);
            match decoded(Content::Json(object)) {
                Ok(result) => {
                    &&& name is Some && json::json_text(name->0) == Some(result.name)
                    &&& summary is Some && json::json_text(summary->0) == Some(result.summary)
                    &&& content == Some(result.content)
                    &&& id is None || id == Some("null"@) ==> result.tool_call_id is None
                    &&& id is Some && id != Some("null"@) ==> result.tool_call_id is Some
                        && json::json_text(id->0) == result.tool_call_id
                },
                Err(_) => name is None || json::json_text(name->0) is None || summary is None
                    || json::json_text(summary->0) is None || content is None || (id is Some && id
                    != Some("null"@) && json::json_text(id->0) is None),
            }
        }),
{
}

} // verus!
