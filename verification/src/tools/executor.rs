//! Results of tool calls.
use vstd::prelude::*;

use crate::json;
use crate::json::JsonValue;
use crate::text;

verus! {

/// Whether a call only reads or may change something.
#[derive(Debug, Clone, Copy, PartialEq, Eq, Structural)]
pub enum ToolExecutionKind {
    ReadOnly,
    SideEffecting,
}

/// What a tool call produced.
#[derive(Debug, PartialEq, Eq)]
pub struct ToolCallResult {
    pub tool_call_id: Option<String>,
    pub name: String,
    pub content: JsonValue,
    pub summary: String,
}

/// A tool result as a mathematical value.
pub struct ToolResult {
    pub tool_call_id: Option<Seq<char>>,
    pub name: Seq<char>,
    pub content: Seq<char>,
    pub summary: Seq<char>,
}

impl View for ToolCallResult {
    type V = ToolResult;

    open spec fn view(&self) -> ToolResult {
        ToolResult {
            tool_call_id: text::opt_text(self.tool_call_id),
            name: self.name@,
            content: self.content@,
            summary: self.summary@,
        }
    }
}

impl Clone for ToolCallResult {
    fn clone(&self) -> (result: Self)
        ensures
            result@ == self@,
    {
        ToolCallResult {
            tool_call_id: self.tool_call_id.clone(),
            name: self.name.clone(),
            content: self.content.clone(),
            summary: self.summary.clone(),
        }
    }
}

/// The results as mathematical values, in order.
pub open spec fn results_view(results: Seq<ToolCallResult>) -> Seq<ToolResult> {
    results.map_values(|result: ToolCallResult| result@)
}

/// Copies a list of results.
pub fn clone_results(results: &[ToolCallResult]) -> (copies: Vec<ToolCallResult>)
    ensures
        results_view(copies@) == results_view(results@),
{
    let mut copies: Vec<ToolCallResult> = Vec::new();
    let mut index: usize = 0;
    while index < results.len()
        invariant
            index <= results.len(),
            results_view(copies@) == results_view(results@.take(index as int)),
        decreases results.len() - index,
    {
        let ghost before = results_view(copies@);
        let copy = results[index].clone();
        copies.push(copy);
        proof {
            assert(results_view(copies@) =~= before.push(copy@));
            assert(results_view(results@.take(index + 1)) =~= before.push(
                results@[index as int]@,
            ));
        }
        index = index + 1;
    }
    assert(results@.take(results@.len() as int) =~= results@);
    copies
}

/// JSON text of an optional string: the string, or `null`.
pub open spec fn optional_json(value: Option<Seq<char>>) -> Seq<char> {
    match value {
        Some(text) => json::json_string(text),
        None => "null"@,
    }
}

impl ToolResult {
    /// The JSON object of a result.
    pub open spec fn encoded(self) -> Seq<char> {
        "{\"content\":"@ + self.content + ",\"name\":"@ + json::json_string(self.name)
            + ",\"summary\":"@ + json::json_string(self.summary) + ",\"tool_call_id\":"@
            + optional_json(self.tool_call_id) + "}"@
    }
}

impl ToolCallResult {
    /// The JSON object of the result.
    pub fn encode(&self) -> (text: String)
        ensures
            text@ == self@.encoded(),
    {
        let name = JsonValue::string(self.name.as_str());
        let summary = JsonValue::string(self.summary.as_str());
        let id = match &self.tool_call_id {
            Some(value) => JsonValue::string(value.as_str()).to_string(),
            None => "null".to_string(),
        };
        "{\"content\":".to_string().concat(self.content.as_str()).concat(",\"name\":").concat(
            name.as_str(),
        ).concat(",\"summary\":").concat(summary.as_str()).concat(",\"tool_call_id\":").concat(
            id.as_str(),
        ).concat("}")
    }
}

/// Results that are the same as mathematical values are the same in all that they
/// hold, a list stands for each of its values in order, and a result is written
/// with all four of its parts.
pub proof fn result_views_leave_nothing_out(
    left: ToolCallResult,
    right: ToolCallResult,
    results: Seq<ToolCallResult>,
)
    ensures
        left@ == right@ ==> {
            &&& text::opt_text(left.tool_call_id) == text::opt_text(right.tool_call_id)
            &&& left.name@ == right.name@
            &&& left.content@ == right.content@
            &&& left.summary@ == right.summary@
        },
        results_view(results).len() == results.len(),
        forall|i: int|
            0 <= i < results.len() ==> #[trigger] results_view(results)[i] == results[i]@,
        left@.encoded() == "{\"content\":"@ + left.content@ + ",\"name\":"@ + json::json_string(
            left.name@,
        ) + ",\"summary\":"@ + json::json_string(left.summary@) + ",\"tool_call_id\":"@ + (
        match left.tool_call_id {
            Some(id) => json::json_string(id@),
            None => "null"@,
        }) + "}"@,
{
}

} // verus!
