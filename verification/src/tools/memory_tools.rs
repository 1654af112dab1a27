//! Arguments of the built-in memory tools.
use vstd::prelude::*;

use crate::config::{
    ToolsConfig, DEFAULT_MAX_GRAPH_SEARCH_DEPTH, DEFAULT_MAX_GRAPH_SEARCH_HITS,
    DEFAULT_MAX_MEMORY_SEARCH_TOP_K, DEFAULT_MAX_PROVENANCE_RAW_NODES,
    DEFAULT_MAX_TIMELINE_SEARCH_LIMIT,
};
use crate::error;
use crate::error::{EngineError, Result};
use crate::ids;
use crate::ids::SessionId;
use crate::json;
use crate::json::JsonValue;
use crate::model::runner::{ToolCall, ToolCallRequest};
use crate::order;
use crate::text;
use crate::text::same_text;

verus! {

/// The built-in memory tools.
#[derive(Debug, Clone, Copy, PartialEq, Eq, Structural)]
pub enum MemoryTool {
    SemanticSearch,
    GraphSearch,
    ProvenanceLookup,
    TimelineSearch,
}

/// The tool of a name, if it is built in.
pub open spec fn tool_named(name: Seq<char>) -> Option<MemoryTool> {
    if name == "semantic_search_memory"@ {
        Some(MemoryTool::SemanticSearch)
    } else if name == "graph_search_memory"@ {
        Some(MemoryTool::GraphSearch)
    } else if name == "provenance_lookup"@ {
        Some(MemoryTool::ProvenanceLookup)
    } else if name == "timeline_search"@ {
        Some(MemoryTool::TimelineSearch)
    } else {
        None
    }
}

/// The tool of a name, if it is built in.
pub fn memory_tool(name: &str) -> (tool: Option<MemoryTool>)
    ensures
        tool == tool_named(name@),
{
    if same_text(name, "semantic_search_memory") {
        Some(MemoryTool::SemanticSearch)
    } else if same_text(name, "graph_search_memory") {
        Some(MemoryTool::GraphSearch)
    } else if same_text(name, "provenance_lookup") {
        Some(MemoryTool::ProvenanceLookup)
    } else if same_text(name, "timeline_search") {
        Some(MemoryTool::TimelineSearch)
    } else {
        None
    }
}

/// A number among the arguments of a tool: what it is when it is left out and
/// what it may be at most.
pub struct Limit {
    pub key: &'static str,
    pub default: usize,
    pub most: usize,
}

/// A limit as a mathematical value.
pub struct Bound {
    pub key: Seq<char>,
    pub default: nat,
    pub most: nat,
}

impl View for Limit {
    type V = Bound;

    open spec fn view(&self) -> Bound {
        Bound { key: self.key@, default: self.default as nat, most: self.most as nat }
    }
}

/// A number within its bound: at least one, at most what is allowed, and one
/// where nothing is allowed.
pub open spec fn clamped(value: nat, most: nat) -> nat {
    if most <= 1 || value <= 1 {
        1
    } else if value > most {
        most
    } else {
        value
    }
}

fn clamp(value: u64, most: usize) -> (result: usize)
    ensures
        result == clamped(value as nat, most as nat),
{
    if most <= 1 || value <= 1 {
        1
    } else if value > most as u64 {
        most
    } else {
        value as usize
    }
}

impl MemoryTool {
    /// What the tool is called in reports about its arguments.
    pub open spec fn label(self) -> Seq<char> {
        match self {
            MemoryTool::SemanticSearch => "semantic search"@,
            MemoryTool::GraphSearch => "graph search"@,
            MemoryTool::ProvenanceLookup => "provenance"@,
            MemoryTool::TimelineSearch => "timeline"@,
        }
    }

    /// What the tool is called in reports about its arguments.
    pub fn describe(self) -> (label: &'static str)
        ensures
            label@ == self.label(),
    {
        match self {
            MemoryTool::SemanticSearch => "semantic search",
            MemoryTool::GraphSearch => "graph search",
            MemoryTool::ProvenanceLookup => "provenance",
            MemoryTool::TimelineSearch => "timeline",
        }
    }

    /// Whether the tool is offered.
    pub open spec fn enabled(self, tools: ToolsConfig) -> bool {
        match self {
            MemoryTool::SemanticSearch => tools.memory_search,
            MemoryTool::GraphSearch => tools.graph_search,
            MemoryTool::ProvenanceLookup => tools.provenance_lookup,
            MemoryTool::TimelineSearch => tools.timeline_search,
        }
    }

    /// Whether the tool is offered.
    pub fn is_enabled(self, tools: &ToolsConfig) -> (result: bool)
        ensures
            result == self.enabled(*tools),
    {
        match self {
            MemoryTool::SemanticSearch => tools.memory_search,
            MemoryTool::GraphSearch => tools.graph_search,
            MemoryTool::ProvenanceLookup => tools.provenance_lookup,
            MemoryTool::TimelineSearch => tools.timeline_search,
        }
    }

    /// The numbers among the arguments of the tool.
    pub open spec fn bounds(self, tools: ToolsConfig) -> Seq<Bound> {
        match self {
            MemoryTool::SemanticSearch => seq![
                Bound {
                    key: "top_k"@,
                    default: DEFAULT_MAX_MEMORY_SEARCH_TOP_K as nat,
                    most: tools.max_memory_search_top_k as nat,
                },
            ],
            MemoryTool::GraphSearch => seq![
                Bound {
                    key: "max_depth"@,
                    default: DEFAULT_MAX_GRAPH_SEARCH_DEPTH as nat,
                    most: tools.max_graph_search_depth as nat,
                },
                Bound {
                    key: "max_hits"@,
                    default: DEFAULT_MAX_GRAPH_SEARCH_HITS as nat,
                    most: tools.max_graph_search_hits as nat,
                },
            ],
            MemoryTool::ProvenanceLookup => seq![
                Bound {
                    key: "limit"@,
                    default: DEFAULT_MAX_PROVENANCE_RAW_NODES as nat,
                    most: tools.max_provenance_raw_nodes as nat,
                },
            ],
            MemoryTool::TimelineSearch => seq![
                Bound {
                    key: "limit"@,
                    default: DEFAULT_MAX_TIMELINE_SEARCH_LIMIT as nat,
                    most: tools.max_timeline_search_limit as nat,
                },
            ],
        }
    }

    /// The numbers among the arguments of the tool.
    pub fn limits(self, tools: &ToolsConfig) -> (limits: Vec<Limit>)
        ensures
            order::views(limits@) == self.bounds(*tools),
    {
        let mut limits: Vec<Limit> = Vec::new();
        match self {
            MemoryTool::SemanticSearch => {
                limits.push(
                    Limit {
                        key: "top_k",
                        default: DEFAULT_MAX_MEMORY_SEARCH_TOP_K,
                        most: tools.max_memory_search_top_k,
                    },
                );
            },
            MemoryTool::GraphSearch => {
                limits.push(
                    Limit {
                        key: "max_depth",
                        default: DEFAULT_MAX_GRAPH_SEARCH_DEPTH,
                        most: tools.max_graph_search_depth,
                    },
                );
                limits.push(
                    Limit {
                        key: "max_hits",
                        default: DEFAULT_MAX_GRAPH_SEARCH_HITS,
                        most: tools.max_graph_search_hits,
                    },
                );
            },
            MemoryTool::ProvenanceLookup => {
                limits.push(
                    Limit {
                        key: "limit",
                        default: DEFAULT_MAX_PROVENANCE_RAW_NODES,
                        most: tools.max_provenance_raw_nodes,
                    },
                );
            },
            MemoryTool::TimelineSearch => {
                limits.push(
                    Limit {
                        key: "limit",
                        default: DEFAULT_MAX_TIMELINE_SEARCH_LIMIT,
                        most: tools.max_timeline_search_limit,
                    },
                );
            },
        }
        assert(order::views(limits@) =~= self.bounds(*tools));
        limits
    }
}

/// The keys of the bounds differ from one another and from the session's.
proof fn bound_keys_are_distinct(tool: MemoryTool, tools: ToolsConfig)
    ensures
        forall|i: int|
            0 <= i < tool.bounds(tools).len() ==> (#[trigger] tool.bounds(tools)[i]).key
                != "session_id"@,
        forall|i: int, j: int|
            0 <= i < j < tool.bounds(tools).len() ==> (#[trigger] tool.bounds(tools)[i]).key != (
            #[trigger] tool.bounds(tools)[j]).key,
{
    reveal_strlit("session_id");
    reveal_strlit("top_k");
    reveal_strlit("max_depth");
    reveal_strlit("max_hits");
    reveal_strlit("limit");
    assert("max_depth"@.len() == 9 && "max_hits"@.len() == 8);
    assert("session_id"@.len() == 10 && "top_k"@.len() == 5 && "limit"@.len() == 5);
}

/// The number that an argument ends up as; nothing when it is no unsigned
/// number.
pub open spec fn bounded_number(arguments: Seq<char>, bound: Bound) -> Option<nat> {
    match json::json_member(arguments, bound.key) {
        None => Some(clamped(bound.default, bound.most)),
        Some(text) => match json::json_unsigned(text) {
            Some(number) => Some(clamped(number as nat, bound.most)),
            None => None,
        },
    }
}

/// Arguments with every number within its bound, or why they are refused.
pub open spec fn with_bounds(arguments: Seq<char>, bounds: Seq<Bound>) -> core::result::Result<
    Seq<char>,
    Seq<char>,
>
    decreases bounds.len(),
{
    if bounds.len() == 0 {
        Ok(arguments)
    } else {
        match bounded_number(arguments, bounds[0]) {
            None => Err(bounds[0].key + " must be an unsigned integer"@),
            Some(number) => match json::json_with_member(
                arguments,
                bounds[0].key,
                text::decimal(number),
            ) {
                None => Err("arguments must be an object"@),
                Some(written) => with_bounds(written, bounds.drop_first()),
            },
        }
    }
}

/// Arguments under the session of a run, or why they are refused.
pub open spec fn with_session(arguments: Seq<char>, session_id: SessionId) -> core::result::Result<
    Seq<char>,
    Seq<char>,
> {
    match json::json_with_member(
        arguments,
        "session_id"@,
        json::json_string(ids::hyphenated(session_id.0.bits)),
    ) {
        None => Err("arguments must be an object"@),
        Some(written) => Ok(written),
    }
}

/// Whether arguments leave their session open, or name it by a text.
pub open spec fn takes_session(arguments: Seq<char>) -> bool {
    match json::json_member(arguments, "session_id"@) {
        None => true,
        Some(given) => given == "null"@ || json::is_quoted(given),
    }
}

/// The arguments that a built-in tool is run with, or why they are refused.
pub open spec fn prepared_arguments(
    tool: MemoryTool,
    arguments: Seq<char>,
    tools: ToolsConfig,
    session_id: SessionId,
) -> core::result::Result<Seq<char>, Seq<char>> {
    if !takes_session(arguments) {
        Err("session_id must be a string"@)
    } else {
        match with_bounds(arguments, tool.bounds(tools)) {
            Err(reason) => Err(reason),
            Ok(bounded) => with_session(bounded, session_id),
        }
    }
}

/// Whether arguments are bound to a session and keep every number within its
/// bound.
pub open spec fn is_confined(
    tool: MemoryTool,
    arguments: Seq<char>,
    tools: ToolsConfig,
    session_id: SessionId,
) -> bool {
    &&& json::json_member(arguments, "session_id"@) == Some(
        json::json_string(ids::hyphenated(session_id.0.bits)),
    )
    &&& forall|i: int|
        #![trigger tool.bounds(tools)[i]]
        0 <= i < tool.bounds(tools).len() ==> is_within(arguments, tool.bounds(tools)[i])
}

/// Whether a number among arguments is written out within its bound.
pub open spec fn is_within(arguments: Seq<char>, bound: Bound) -> bool {
    exists|number: nat|
        json::json_member(arguments, bound.key) == Some(#[trigger] text::decimal(number)) && 1
            <= number && (number <= bound.most || number == 1)
}

/// Whether arguments are written out compactly and name a session.
pub open spec fn names_session(arguments: Seq<char>) -> bool {
    &&& json::is_compact(arguments)
    &&& exists|given: Seq<char>|
        json::json_member(arguments, "session_id"@) == Some(#[trigger] json::json_string(given))
}

/// Arguments with another session named.
pub open spec fn with_given_session(arguments: Seq<char>, given: Seq<char>) -> Option<Seq<char>> {
    json::json_with_member(arguments, "session_id"@, json::json_string(given))
}

/// Whether arguments that differ in the session they name alone are prepared
/// alike.
pub open spec fn ignores_given_session(
    tool: MemoryTool,
    arguments: Seq<char>,
    tools: ToolsConfig,
    session_id: SessionId,
) -> bool {
    names_session(arguments) ==> forall|given: Seq<char>|
        (#[trigger] with_given_session(arguments, given)) is Some ==> prepared_arguments(
            tool,
            with_given_session(arguments, given)->0,
            tools,
            session_id,
        ) == prepared_arguments(tool, arguments, tools, session_id)
}

/// Sets one number among arguments.
fn set_number(arguments: &JsonValue, limit: &Limit) -> (result: core::result::Result<
    JsonValue,
    String,
>)
    ensures
        match bounded_number(arguments@, limit@) {
            None => result is Err && result->Err_0@ == limit@.key
                + " must be an unsigned integer"@,
            Some(number) => match json::json_with_member(
                arguments@,
                limit@.key,
                text::decimal(number),
            ) {
                None => result is Err && result->Err_0@ == "arguments must be an object"@,
                Some(written) => result is Ok && result->Ok_0@ == written,
            },
        },
        result matches Ok(written) ==> is_within(written@, limit@) && forall|other: Seq<char>|
            other != limit@.key && json::json_member(arguments@, other) is Some && json::is_plain(
                json::json_member(arguments@, other)->0,
            ) ==> #[trigger] json::json_member(written@, other) == json::json_member(
                arguments@,
                other,
            ),
        limit@.key != "session_id"@ && names_session(arguments@) ==> {
            &&& result is Ok ==> names_session(result->Ok_0@)
            &&& forall|given: Seq<char>|
                (#[trigger] with_given_session(arguments@, given)) is Some ==> {
                    let other = with_given_session(arguments@, given)->0;
                    &&& bounded_number(other, limit@) == bounded_number(arguments@, limit@)
                    &&& result matches Ok(written) ==> {
                        &&& with_given_session(written@, given) is Some
                        &&& json::json_with_member(
                            other,
                            limit@.key,
                            text::decimal(bounded_number(arguments@, limit@)->0),
                        ) == with_given_session(written@, given)
                    }
                    &&& result is Err ==> bounded_number(arguments@, limit@) is None
                }
        },
{
    proof {
        session_texts_are_plain();
    }
    let number: usize = match arguments.member(limit.key) {
        None => clamp(limit.default as u64, limit.most),
        Some(value) => match value.as_unsigned() {
            Some(number) => clamp(number, limit.most),
            None => return Err(limit.key.to_string().concat(" must be an unsigned integer")),
        },
    };
    let value = JsonValue::unsigned(number as u64);
    assert(json::is_plain(value@)) by {
        assert(value@ == text::decimal((number as u64) as nat));
    }
    match arguments.with_member(limit.key, &value) {
        Some(written) => {
            assert(json::json_member(written@, limit@.key) == Some(text::decimal(number as nat)));
            proof {
                if limit@.key != "session_id"@ && names_session(arguments@) {
                    let named = choose|given: Seq<char>|
                        json::json_member(arguments@, "session_id"@) == Some(
                            #[trigger] json::json_string(given),
                        );
                    assert(json::json_member(written@, "session_id"@) == Some(
                        json::json_string(named),
                    ));
                }
            }
            Ok(written)
        },
        None => Err("arguments must be an object".to_string()),
    }
}

/// Refuses a tool that is not offered.
pub fn ensure_tool_enabled(enabled: bool, tool_name: &str) -> (result: Result<()>)
    ensures
        enabled ==> result is Ok,
        !enabled ==> result is Err && error::is_tool(
            result->Err_0,
            disabled_message(tool_name@),
        ),
{
    if enabled {
        Ok(())
    } else {
        Err(
            EngineError::Tool(
                "tool ".to_string().concat(tool_name).concat(" is disabled by config"),
            ),
        )
    }
}

/// How the absence of a tool is reported.
pub open spec fn disabled_message(name: Seq<char>) -> Seq<char> {
    "tool "@ + name + " is disabled by config"@
}

/// How refused arguments are reported.
pub open spec fn invalid_message(tool: MemoryTool, reason: Seq<char>) -> Seq<char> {
    "invalid "@ + tool.label() + " args: "@ + reason
}

/// Prepares a call for a run: a built-in memory tool must be offered, its
/// numbers are brought within their bounds, and it is bound to the session of
/// the run whatever session the model named. One that is no text is refused.
/// Other tools are left alone.
pub fn prepare_tool_call_for_config(
    call: ToolCallRequest,
    tools: &ToolsConfig,
    session_id: SessionId,
) -> (result: Result<ToolCallRequest>)
    ensures
        match tool_named(call@.name) {
            None => result is Ok && result->Ok_0 == call,
            Some(tool) => if !tool.enabled(*tools) {
                result is Err && error::is_tool(result->Err_0, disabled_message(call@.name))
            } else {
                match prepared_arguments(tool, call@.arguments, *tools, session_id) {
                    Err(reason) => result is Err && error::is_tool(
                        result->Err_0,
                        invalid_message(tool, reason),
                    ),
                    Ok(arguments) => result is Ok && result->Ok_0@ == (ToolCall {
                        arguments,
                        ..call@
                    }) && is_confined(tool, arguments, *tools, session_id),
                }
            },
        },
        tool_named(call@.name) matches Some(tool) ==> (tool.enabled(*tools)
            ==> ignores_given_session(tool, call@.arguments, *tools, session_id)),
{
    let tool = match memory_tool(call.name.as_str()) {
        Some(tool) => tool,
        None => return Ok(call),
    };
    match ensure_tool_enabled(tool.is_enabled(tools), call.name.as_str()) {
        Ok(()) => {},
        Err(failure) => return Err(failure),
    }
    match prepare_arguments(tool, &call.arguments, tools, session_id) {
        Ok(arguments) => Ok(ToolCallRequest { id: call.id, name: call.name, arguments }),
        Err(reason) => Err(
            EngineError::Tool(
                "invalid ".to_string().concat(tool.describe()).concat(" args: ").concat(
                    reason.as_str(),
                ),
            ),
        ),
    }
}

fn prepare_arguments(
    tool: MemoryTool,
    arguments: &JsonValue,
    tools: &ToolsConfig,
    session_id: SessionId,
) -> (result: core::result::Result<JsonValue, String>)
    ensures
        match prepared_arguments(tool, arguments@, *tools, session_id) {
            Err(reason) => result is Err && result->Err_0@ == reason,
            Ok(text) => result is Ok && result->Ok_0@ == text && is_confined(
                tool,
                text,
                *tools,
                session_id,
            ),
        },
        ignores_given_session(tool, arguments@, *tools, session_id),
{
    proof {
        session_texts_are_plain();
    }
    if let Some(given) = arguments.member("session_id") {
        if !same_text(given.as_str(), "null") && !given.is_text() {
            proof {
                assert(!names_session(arguments@));
            }
            return Err("session_id must be a string".to_string());
        }
    }
    assert(takes_session(arguments@));
    proof {
        if names_session(arguments@) {
            assert forall|given: Seq<char>|
                (#[trigger] with_given_session(arguments@, given)) is Some implies takes_session(
                with_given_session(arguments@, given)->0,
            ) by {
                assert(json::is_quoted(json::json_string(given)));
            }
        }
    }
    let ghost bounds = tool.bounds(*tools);
    let limits = tool.limits(tools);
    let mut current = arguments.clone();
    let mut index: usize = 0;
    proof {
        bound_keys_are_distinct(tool, *tools);
        assert(bounds.skip(0) =~= bounds);
    }
    while index < limits.len()
        invariant
            index <= limits.len(),
            bounds == tool.bounds(*tools),
            bounds == order::views(limits@),
            bounds.len() == limits.len(),
            with_bounds(current@, bounds.skip(index as int)) == with_bounds(arguments@, bounds),
            forall|j: int|
                #![trigger bounds[j]]
                0 <= j < index ==> is_within(current@, bounds[j]),
            forall|i: int, j: int|
                0 <= i < j < bounds.len() ==> (#[trigger] bounds[i]).key != (
                #[trigger] bounds[j]).key,
            forall|i: int|
                0 <= i < bounds.len() ==> (#[trigger] bounds[i]).key != "session_id"@,
            takes_session(arguments@),
            names_session(arguments@) ==> forall|given: Seq<char>|
                (#[trigger] with_given_session(arguments@, given)) is Some ==> takes_session(
                    with_given_session(arguments@, given)->0,
                ),
            names_session(arguments@) ==> names_session(current@),
            names_session(arguments@) ==> forall|given: Seq<char>|
                (#[trigger] with_given_session(arguments@, given)) is Some ==> with_given_session(
                    current@,
                    given,
                ) is Some && with_bounds(
                    with_given_session(current@, given)->0,
                    bounds.skip(index as int),
                ) == with_bounds(with_given_session(arguments@, given)->0, bounds),
        decreases limits.len() - index,
    {
        let limit = &limits[index];
        proof {
            assert(bounds.skip(index as int)[0] == limit@);
            assert(limit@.key == bounds[index as int].key);
            assert(bounds.skip(index as int).drop_first() =~= bounds.skip(index + 1));
        }
        match set_number(&current, limit) {
            Err(reason) => return Err(reason),
            Ok(written) => {
                proof {
                    assert forall|j: int|
                        #![trigger bounds[j]]
                        0 <= j < index + 1 implies is_within(written@, bounds[j]) by {
                        if j < index {
                            keeps_within(current@, written@, bounds[j]);
                        } else {
                            assert(bounds[j] == limit@);
                        }
                    }
                }
                current = written;
            },
        }
        index = index + 1;
    }
    assert(bounds.skip(bounds.len() as int) =~= Seq::empty());
    let session = JsonValue::string(session_id.to_string().as_str());
    assert(json::is_plain(session@)) by {
        assert(session@ == json::json_string(ids::hyphenated(session_id.0.bits)));
    }
    proof {
        session_texts_are_plain();
    }
    match current.with_member("session_id", &session) {
        Some(written) => {
            proof {
                bound_keys_are_distinct(tool, *tools);
                assert forall|i: int|
                    #![trigger bounds[i]]
                    0 <= i < bounds.len() implies is_within(written@, bounds[i]) by {
                    keeps_within(current@, written@, bounds[i]);
                }
            }
            Ok(written)
        },
        None => Err("arguments must be an object".to_string()),
    }
}

proof fn session_texts_are_plain()
    ensures
        forall|given: Seq<char>| json::is_plain(#[trigger] json::json_string(given)),
{
}

/// A bounded number stays bounded when a plain member is kept.
proof fn keeps_within(before: Seq<char>, after: Seq<char>, bound: Bound)
    requires
        is_within(before, bound),
        bound.most <= u64::MAX,
        json::json_member(before, bound.key) is Some && json::is_plain(
            json::json_member(before, bound.key)->0,
        ) ==> json::json_member(after, bound.key) == json::json_member(before, bound.key),
    ensures
        is_within(after, bound),
{
    let number = choose|number: nat|
        json::json_member(before, bound.key) == Some(#[trigger] text::decimal(number)) && 1
            <= number && (number <= bound.most || number == 1);
    assert(json::is_plain(text::decimal(number))) by {
        assert(text::decimal((number as u64) as nat) == text::decimal(number));
    }
    assert(json::json_member(after, bound.key) == Some(text::decimal(number)));
}

/// No call of a built-in tool is prepared for another session, and none
/// searches beyond its bounds.
pub proof fn prepared_calls_are_confined(
    tool: MemoryTool,
    arguments: Seq<char>,
    tools: ToolsConfig,
    session_id: SessionId,
    other: SessionId,
)
    requires
        is_confined(tool, arguments, tools, session_id),
        json::json_member(arguments, "session_id"@) == Some(
            json::json_string(ids::hyphenated(other.0.bits)),
        ),
    ensures
        other == session_id,
{
    let left = ids::hyphenated(other.0.bits);
    let right = ids::hyphenated(session_id.0.bits);
    json::json_string_is_injective(left, right);
    ids::hyphenated_is_injective(other.0.bits, session_id.0.bits);
}

/// A number that is asked for is taken as it is where it lies between one and
/// the most that is allowed, and otherwise moved to the nearer of the two. Where
/// none is asked for, the same is done with the default.
pub proof fn asked_numbers_are_kept_within_bounds(arguments: Seq<char>, bound: Bound, number: u64)
    requires
        bound.most >= 1,
    ensures
        json::json_member(arguments, bound.key) matches Some(text) ==> (json::json_unsigned(text)
            == Some(number) ==> bounded_number(arguments, bound) == Some(
            if number < 1 {
                1
            } else if number <= bound.most {
                number as nat
            } else {
                bound.most
            },
        )),
        json::json_member(arguments, bound.key) is None ==> bounded_number(arguments, bound)
            == Some(
            if bound.default < 1 {
                1
            } else if bound.default <= bound.most {
                bound.default
            } else {
                bound.most
            },
        ),
        json::json_member(arguments, bound.key) matches Some(text) ==> (json::json_unsigned(
            text,
        ) is None ==> bounded_number(arguments, bound) is None),
{
}

/// Every bound is set, one after the other: the arguments with two lists of
/// bounds are those with the first list and then with the second, one bound sets
/// its own member to its number, and no bound changes nothing. What cannot be
/// read as a number is refused by the name of its member.
pub proof fn all_bounds_are_set(
    arguments: Seq<char>,
    left: Seq<Bound>,
    right: Seq<Bound>,
    bound: Bound,
)
    ensures
        with_bounds(arguments, Seq::empty()) == Ok::<Seq<char>, Seq<char>>(arguments),
        with_bounds(arguments, seq![bound]) == (match bounded_number(arguments, bound) {
            None => Err(bound.key + " must be an unsigned integer"@),
            Some(number) => match json::json_with_member(
                arguments,
                bound.key,
                text::decimal(number),
            ) {
                None => Err("arguments must be an object"@),
                Some(written) => Ok(written),
            },
        }),
        with_bounds(arguments, left + right) == (match with_bounds(arguments, left) {
            Err(reason) => Err(reason),
            Ok(written) => with_bounds(written, right),
        }),
    decreases left.len(),
{
    reveal_with_fuel(with_bounds, 2);
    assert(seq![bound].drop_first() =~= Seq::<Bound>::empty());
    if left.len() == 0 {
        assert(left + right =~= right);
    } else {
        assert((left + right).drop_first() =~= left.drop_first() + right);
        assert((left + right)[0] == left[0]);
        if let Some(number) = bounded_number(arguments, left[0]) {
            if let Some(written) = json::json_with_member(
                arguments,
                left[0].key,
                text::decimal(number),
            ) {
                all_bounds_are_set(written, left.drop_first(), right, bound);
            }
        }
    }
}

/// Each memory tool is known by its name, is switched by its own setting, and has
/// its own bounds, with the most that the configuration allows.
pub proof fn memory_tools_are_told_apart(tools: ToolsConfig)
    ensures
        ({
            let semantic = tool_named("semantic_search_memory"@)->0;
            let graph = tool_named("graph_search_memory"@)->0;
            let provenance = tool_named("provenance_lookup"@)->0;
            let timeline = tool_named("timeline_search"@)->0;
            &&& tool_named("semantic_search_memory"@) is Some && semantic.enabled(tools)
                == tools.memory_search
            &&& tool_named("graph_search_memory"@) is Some && graph.enabled(tools)
                == tools.graph_search
            &&& tool_named("provenance_lookup"@) is Some && provenance.enabled(tools)
                == tools.provenance_lookup
            &&& tool_named("timeline_search"@) is Some && timeline.enabled(tools)
                == tools.timeline_search
            &&& semantic.bounds(tools) == seq![
                Bound { key: "top_k"@, default: 32, most: tools.max_memory_search_top_k as nat },
            ]
            &&& graph.bounds(tools) == seq![
                Bound {
                    key: "max_depth"@,
                    default: 4,
                    most: tools.max_graph_search_depth as nat,
                },
                Bound {
                    key: "max_hits"@,
                    default: 128,
                    most: tools.max_graph_search_hits as nat,
                },
            ]
            &&& provenance.bounds(tools) == seq![
                Bound { key: "limit"@, default: 128, most: tools.max_provenance_raw_nodes as nat },
            ]
            &&& timeline.bounds(tools) == seq![
                Bound {
                    key: "limit"@,
                    default: 100,
                    most: tools.max_timeline_search_limit as nat,
                },
            ]
        }),
        forall|name: Seq<char>| #[trigger]
            tool_named(name) is Some ==> name == "semantic_search_memory"@ || name
                == "graph_search_memory"@ || name == "provenance_lookup"@ || name
                == "timeline_search"@,
{
    reveal_strlit("semantic_search_memory");
    reveal_strlit("graph_search_memory");
    reveal_strlit("provenance_lookup");
    reveal_strlit("timeline_search");
    assert("semantic_search_memory"@[0] != "graph_search_memory"@[0]);
    assert("semantic_search_memory"@[0] != "provenance_lookup"@[0]);
    assert("semantic_search_memory"@[0] != "timeline_search"@[0]);
    assert("graph_search_memory"@[0] != "provenance_lookup"@[0]);
    assert("graph_search_memory"@[0] != "timeline_search"@[0]);
    assert("provenance_lookup"@[0] != "timeline_search"@[0]);
}

/// A prepared call acts in the session that it is prepared for, whatever session
/// it names, and otherwise says what it said with its bounds set. A session that
/// is no text is refused before anything else.
pub proof fn prepared_calls_say_what_they_said(
    tool: MemoryTool,
    arguments: Seq<char>,
    tools: ToolsConfig,
    session_id: SessionId,
)
    ensures
        match json::json_member(arguments, "session_id"@) {
            Some(given) if given != "null"@ && !(given.len() > 0 && given[0] == '"') => prepared_arguments(
                tool,
                arguments,
                tools,
                session_id,
            ) == Err::<Seq<char>, Seq<char>>("session_id must be a string"@),
            _ => prepared_arguments(tool, arguments, tools, session_id) == (match with_bounds(
                arguments,
                tool.bounds(tools),
            ) {
                Err(reason) => Err(reason),
                Ok(bounded) => match json::json_with_member(
                    bounded,
                    "session_id"@,
                    json::json_string(ids::hyphenated(session_id.0.bits)),
                ) {
                    None => Err("arguments must be an object"@),
                    Some(written) => Ok(written),
                },
            }),
        },
{
}

} // verus!
