//! The two graphs that runs follow.
use vstd::prelude::*;

use crate::engine::execution_graph::{
    EdgeName, ExecutionGraph, ExecutionProfile, Graph, NodeRuntimeClass, DEFAULT_EDGE,
};
use crate::table;
use crate::table::Pair;

verus! {

/// The branch of a model node that asked for tools.
pub const NEEDS_TOOLS_BRANCH: &'static str = "needs_tools";

/// Records the user's message.
pub const INGEST_USER_INPUT_NODE: &'static str = "ingest_user_input";

/// Loads the recent nodes of the session.
pub const LOAD_SESSION_VIEW_NODE: &'static str = "load_session_view";

/// Runs the tools that the model asked for.
pub const EXECUTE_TOOLS_NODE: &'static str = "execute_tools";

/// Records the answer.
pub const PERSIST_ASSISTANT_OUTPUT_NODE: &'static str = "persist_assistant_output";

/// Marks what fell out of the session window.
pub const MARK_SESSION_OVERFLOW_NODE: &'static str = "mark_session_overflow";

/// Distills the loop.
pub const DISTILL_CURRENT_LOOP_NODE: &'static str = "distill_current_loop";

/// Prepares a context that the caller owns.
pub const ASSEMBLE_EXTERNAL_CONTEXT_NODE: &'static str = "assemble_external_context";

/// Ends a run whose context the caller owns.
pub const FINALIZE_EXTERNAL_RESPONSE_NODE: &'static str = "finalize_external_response";

/// A node of a graph.
pub open spec fn node(name: Seq<char>, class: NodeRuntimeClass) -> Pair<
    Seq<char>,
    NodeRuntimeClass,
> {
    Pair { key: name, value: class }
}

/// An edge of a graph.
pub open spec fn edge(from: Seq<char>, branch: Seq<char>, to: Seq<char>) -> Pair<
    EdgeName,
    Seq<char>,
> {
    Pair { key: EdgeName { from, branch }, value: to }
}

/// The graph of runs that keep memories: a chain from ingestion to distillation,
/// in which both model nodes may go round through the tools.
pub open spec fn default_graph() -> Graph {
    Graph {
        start: "ingest_user_input"@,
        nodes: seq![
            node("ingest_user_input"@, NodeRuntimeClass::Standard),
            node("load_session_view"@, NodeRuntimeClass::Standard),
            node("build_activation_query"@, NodeRuntimeClass::Standard),
            node("activate_memory"@, NodeRuntimeClass::Standard),
            node("assemble_context"@, NodeRuntimeClass::Standard),
            node("run_model"@, NodeRuntimeClass::Model),
            node("execute_tools"@, NodeRuntimeClass::ToolExecution),
            node("build_followup_activation_query"@, NodeRuntimeClass::Standard),
            node("reactivate_memory"@, NodeRuntimeClass::Standard),
            node("reassemble_context"@, NodeRuntimeClass::Standard),
            node("run_model_after_tools"@, NodeRuntimeClass::Model),
            node("persist_assistant_output"@, NodeRuntimeClass::Standard),
            node("mark_session_overflow"@, NodeRuntimeClass::Standard),
            node("distill_current_loop"@, NodeRuntimeClass::Distillation),
        ],
        edges: seq![
            edge("ingest_user_input"@, DEFAULT_EDGE@, "load_session_view"@),
            edge("load_session_view"@, DEFAULT_EDGE@, "build_activation_query"@),
            edge("build_activation_query"@, DEFAULT_EDGE@, "activate_memory"@),
            edge("activate_memory"@, DEFAULT_EDGE@, "assemble_context"@),
            edge("assemble_context"@, DEFAULT_EDGE@, "run_model"@),
            edge("run_model"@, "needs_tools"@, "execute_tools"@),
            edge("execute_tools"@, DEFAULT_EDGE@, "build_followup_activation_query"@),
            edge("build_followup_activation_query"@, DEFAULT_EDGE@, "reactivate_memory"@),
            edge("reactivate_memory"@, DEFAULT_EDGE@, "reassemble_context"@),
            edge("reassemble_context"@, DEFAULT_EDGE@, "run_model_after_tools"@),
            edge("run_model_after_tools"@, DEFAULT_EDGE@, "persist_assistant_output"@),
            edge("run_model_after_tools"@, "needs_tools"@, "execute_tools"@),
            edge("run_model"@, DEFAULT_EDGE@, "persist_assistant_output"@),
            edge("persist_assistant_output"@, DEFAULT_EDGE@, "mark_session_overflow"@),
            edge("mark_session_overflow"@, DEFAULT_EDGE@, "distill_current_loop"@),
        ],
    }
}

/// The graph of runs whose context the caller owns: the model and tool loop and
/// nothing else.
pub open spec fn external_context_graph() -> Graph {
    Graph {
        start: "assemble_external_context"@,
        nodes: seq![
            node("assemble_external_context"@, NodeRuntimeClass::Standard),
            node("run_model_external_context"@, NodeRuntimeClass::Model),
            node("execute_tools"@, NodeRuntimeClass::ToolExecution),
            node("run_model_external_context_after_tools"@, NodeRuntimeClass::Model),
            node("finalize_external_response"@, NodeRuntimeClass::Standard),
        ],
        edges: seq![
            edge("assemble_external_context"@, DEFAULT_EDGE@, "run_model_external_context"@),
            edge("run_model_external_context"@, "needs_tools"@, "execute_tools"@),
            edge("run_model_external_context"@, DEFAULT_EDGE@, "finalize_external_response"@),
            edge("execute_tools"@, DEFAULT_EDGE@, "run_model_external_context_after_tools"@),
            edge("run_model_external_context_after_tools"@, "needs_tools"@, "execute_tools"@),
            edge("run_model_external_context_after_tools"@, DEFAULT_EDGE@, "finalize_external_response"@),
        ],
    }
}

/// Appending an entry under a new key.
proof fn new_keys_append<K, V>(entries: Seq<Pair<K, V>>, key: K, value: V)
    requires
        forall|i: int| 0 <= i < entries.len() ==> (#[trigger] entries[i]).key != key,
    ensures
        table::stored(entries, key, value) == entries.push(Pair { key, value }),
{
    table::first_is_position(entries, key, entries.len());
}

/// Two texts differ when their lengths or their first characters do.
spec fn mark(name: Seq<char>) -> (nat, char) {
    (name.len(), name[0])
}

/// Builds the graph of runs that keep memories.
pub fn build_default_execution_graph() -> (graph: ExecutionGraph)
    ensures
        graph@ == default_graph(),
{
    proof {
        reveal_strlit("ingest_user_input");
        reveal_strlit("load_session_view");
        reveal_strlit("build_activation_query");
        reveal_strlit("activate_memory");
        reveal_strlit("assemble_context");
        reveal_strlit("run_model");
        reveal_strlit("execute_tools");
        reveal_strlit("build_followup_activation_query");
        reveal_strlit("reactivate_memory");
        reveal_strlit("reassemble_context");
        reveal_strlit("run_model_after_tools");
        reveal_strlit("persist_assistant_output");
        reveal_strlit("mark_session_overflow");
        reveal_strlit("distill_current_loop");
        reveal_strlit("needs_tools");
        reveal_strlit("__default__");
        assert(mark("ingest_user_input"@) == (17nat, 'i'));
        assert(mark("load_session_view"@) == (17nat, 'l'));
        assert(mark("build_activation_query"@) == (22nat, 'b'));
        assert(mark("activate_memory"@) == (15nat, 'a'));
        assert(mark("assemble_context"@) == (16nat, 'a'));
        assert(mark("run_model"@) == (9nat, 'r'));
        assert(mark("execute_tools"@) == (13nat, 'e'));
        assert(mark("build_followup_activation_query"@) == (31nat, 'b'));
        assert(mark("reactivate_memory"@) == (17nat, 'r'));
        assert(mark("reassemble_context"@) == (18nat, 'r'));
        assert(mark("run_model_after_tools"@) == (21nat, 'r'));
        assert(mark("persist_assistant_output"@) == (24nat, 'p'));
        assert(mark("mark_session_overflow"@) == (21nat, 'm'));
        assert(mark("distill_current_loop"@) == (20nat, 'd'));
        assert(mark("needs_tools"@) == (11nat, 'n'));
        assert(mark(DEFAULT_EDGE@) == (11nat, '_'));
    }
    let mut graph = ExecutionGraph::new("ingest_user_input");
    proof {
        new_keys_append(graph@.nodes, "ingest_user_input"@, NodeRuntimeClass::Standard);
    }
    graph.add_node("ingest_user_input", NodeRuntimeClass::Standard);
    proof {
        new_keys_append(graph@.nodes, "load_session_view"@, NodeRuntimeClass::Standard);
    }
    graph.add_node("load_session_view", NodeRuntimeClass::Standard);
    proof {
        new_keys_append(graph@.nodes, "build_activation_query"@, NodeRuntimeClass::Standard);
    }
    graph.add_node("build_activation_query", NodeRuntimeClass::Standard);
    proof {
        new_keys_append(graph@.nodes, "activate_memory"@, NodeRuntimeClass::Standard);
    }
    graph.add_node("activate_memory", NodeRuntimeClass::Standard);
    proof {
        new_keys_append(graph@.nodes, "assemble_context"@, NodeRuntimeClass::Standard);
    }
    graph.add_node("assemble_context", NodeRuntimeClass::Standard);
    proof {
        new_keys_append(graph@.nodes, "run_model"@, NodeRuntimeClass::Model);
    }
    graph.add_node("run_model", NodeRuntimeClass::Model);
    proof {
        new_keys_append(graph@.nodes, "execute_tools"@, NodeRuntimeClass::ToolExecution);
    }
    graph.add_node("execute_tools", NodeRuntimeClass::ToolExecution);
    proof {
        new_keys_append(graph@.nodes, "build_followup_activation_query"@, NodeRuntimeClass::Standard);
    }
    graph.add_node("build_followup_activation_query", NodeRuntimeClass::Standard);
    proof {
        new_keys_append(graph@.nodes, "reactivate_memory"@, NodeRuntimeClass::Standard);
    }
    graph.add_node("reactivate_memory", NodeRuntimeClass::Standard);
    proof {
        new_keys_append(graph@.nodes, "reassemble_context"@, NodeRuntimeClass::Standard);
    }
    graph.add_node("reassemble_context", NodeRuntimeClass::Standard);
    proof {
        new_keys_append(graph@.nodes, "run_model_after_tools"@, NodeRuntimeClass::Model);
    }
    graph.add_node("run_model_after_tools", NodeRuntimeClass::Model);
    proof {
        new_keys_append(graph@.nodes, "persist_assistant_output"@, NodeRuntimeClass::Standard);
    }
    graph.add_node("persist_assistant_output", NodeRuntimeClass::Standard);
    proof {
        new_keys_append(graph@.nodes, "mark_session_overflow"@, NodeRuntimeClass::Standard);
    }
    graph.add_node("mark_session_overflow", NodeRuntimeClass::Standard);
    proof {
        new_keys_append(graph@.nodes, "distill_current_loop"@, NodeRuntimeClass::Distillation);
    }
    graph.add_node("distill_current_loop", NodeRuntimeClass::Distillation);
    assert(graph@.nodes =~= default_graph().nodes);
    proof {
        new_keys_append(graph@.edges, EdgeName { from: "ingest_user_input"@, branch: DEFAULT_EDGE@ }, "load_session_view"@);
    }
    graph.add_edge("ingest_user_input", DEFAULT_EDGE, "load_session_view");
    proof {
        new_keys_append(graph@.edges, EdgeName { from: "load_session_view"@, branch: DEFAULT_EDGE@ }, "build_activation_query"@);
    }
    graph.add_edge("load_session_view", DEFAULT_EDGE, "build_activation_query");
    proof {
        new_keys_append(graph@.edges, EdgeName { from: "build_activation_query"@, branch: DEFAULT_EDGE@ }, "activate_memory"@);
    }
    graph.add_edge("build_activation_query", DEFAULT_EDGE, "activate_memory");
    proof {
        new_keys_append(graph@.edges, EdgeName { from: "activate_memory"@, branch: DEFAULT_EDGE@ }, "assemble_context"@);
    }
    graph.add_edge("activate_memory", DEFAULT_EDGE, "assemble_context");
    proof {
        new_keys_append(graph@.edges, EdgeName { from: "assemble_context"@, branch: DEFAULT_EDGE@ }, "run_model"@);
    }
    graph.add_edge("assemble_context", DEFAULT_EDGE, "run_model");
    proof {
        new_keys_append(graph@.edges, EdgeName { from: "run_model"@, branch: "needs_tools"@ }, "execute_tools"@);
    }
    graph.add_edge("run_model", "needs_tools", "execute_tools");
    proof {
        new_keys_append(graph@.edges, EdgeName { from: "execute_tools"@, branch: DEFAULT_EDGE@ }, "build_followup_activation_query"@);
    }
    graph.add_edge("execute_tools", DEFAULT_EDGE, "build_followup_activation_query");
    proof {
        new_keys_append(graph@.edges, EdgeName { from: "build_followup_activation_query"@, branch: DEFAULT_EDGE@ }, "reactivate_memory"@);
    }
    graph.add_edge("build_followup_activation_query", DEFAULT_EDGE, "reactivate_memory");
    proof {
        new_keys_append(graph@.edges, EdgeName { from: "reactivate_memory"@, branch: DEFAULT_EDGE@ }, "reassemble_context"@);
    }
    graph.add_edge("reactivate_memory", DEFAULT_EDGE, "reassemble_context");
    proof {
        new_keys_append(graph@.edges, EdgeName { from: "reassemble_context"@, branch: DEFAULT_EDGE@ }, "run_model_after_tools"@);
    }
    graph.add_edge("reassemble_context", DEFAULT_EDGE, "run_model_after_tools");
    proof {
        new_keys_append(graph@.edges, EdgeName { from: "run_model_after_tools"@, branch: DEFAULT_EDGE@ }, "persist_assistant_output"@);
    }
    graph.add_edge("run_model_after_tools", DEFAULT_EDGE, "persist_assistant_output");
    proof {
        new_keys_append(graph@.edges, EdgeName { from: "run_model_after_tools"@, branch: "needs_tools"@ }, "execute_tools"@);
    }
    graph.add_edge("run_model_after_tools", "needs_tools", "execute_tools");
    proof {
        new_keys_append(graph@.edges, EdgeName { from: "run_model"@, branch: DEFAULT_EDGE@ }, "persist_assistant_output"@);
    }
    graph.add_edge("run_model", DEFAULT_EDGE, "persist_assistant_output");
    proof {
        new_keys_append(graph@.edges, EdgeName { from: "persist_assistant_output"@, branch: DEFAULT_EDGE@ }, "mark_session_overflow"@);
    }
    graph.add_edge("persist_assistant_output", DEFAULT_EDGE, "mark_session_overflow");
    proof {
        new_keys_append(graph@.edges, EdgeName { from: "mark_session_overflow"@, branch: DEFAULT_EDGE@ }, "distill_current_loop"@);
    }
    graph.add_edge("mark_session_overflow", DEFAULT_EDGE, "distill_current_loop");
    assert(graph@.edges =~= default_graph().edges);
    graph
}

/// Builds the graph of runs whose context the caller owns.
pub fn build_external_context_execution_graph() -> (graph: ExecutionGraph)
    ensures
        graph@ == external_context_graph(),
{
    proof {
        reveal_strlit("assemble_external_context");
        reveal_strlit("run_model_external_context");
        reveal_strlit("execute_tools");
        reveal_strlit("run_model_external_context_after_tools");
        reveal_strlit("finalize_external_response");
        reveal_strlit("needs_tools");
        reveal_strlit("__default__");
        assert(mark("assemble_external_context"@) == (25nat, 'a'));
        assert(mark("run_model_external_context"@) == (26nat, 'r'));
        assert(mark("execute_tools"@) == (13nat, 'e'));
        assert(mark("run_model_external_context_after_tools"@) == (38nat, 'r'));
        assert(mark("finalize_external_response"@) == (26nat, 'f'));
        assert(mark("needs_tools"@) == (11nat, 'n'));
        assert(mark(DEFAULT_EDGE@) == (11nat, '_'));
    }
    let mut graph = ExecutionGraph::new("assemble_external_context");
    proof {
        new_keys_append(graph@.nodes, "assemble_external_context"@, NodeRuntimeClass::Standard);
    }
    graph.add_node("assemble_external_context", NodeRuntimeClass::Standard);
    proof {
        new_keys_append(graph@.nodes, "run_model_external_context"@, NodeRuntimeClass::Model);
    }
    graph.add_node("run_model_external_context", NodeRuntimeClass::Model);
    proof {
        new_keys_append(graph@.nodes, "execute_tools"@, NodeRuntimeClass::ToolExecution);
    }
    graph.add_node("execute_tools", NodeRuntimeClass::ToolExecution);
    proof {
        new_keys_append(graph@.nodes, "run_model_external_context_after_tools"@, NodeRuntimeClass::Model);
    }
    graph.add_node("run_model_external_context_after_tools", NodeRuntimeClass::Model);
    proof {
        new_keys_append(graph@.nodes, "finalize_external_response"@, NodeRuntimeClass::Standard);
    }
    graph.add_node("finalize_external_response", NodeRuntimeClass::Standard);
    assert(graph@.nodes =~= external_context_graph().nodes);
    proof {
        new_keys_append(graph@.edges, EdgeName { from: "assemble_external_context"@, branch: DEFAULT_EDGE@ }, "run_model_external_context"@);
    }
    graph.add_edge("assemble_external_context", DEFAULT_EDGE, "run_model_external_context");
    proof {
        new_keys_append(graph@.edges, EdgeName { from: "run_model_external_context"@, branch: "needs_tools"@ }, "execute_tools"@);
    }
    graph.add_edge("run_model_external_context", "needs_tools", "execute_tools");
    proof {
        new_keys_append(graph@.edges, EdgeName { from: "run_model_external_context"@, branch: DEFAULT_EDGE@ }, "finalize_external_response"@);
    }
    graph.add_edge("run_model_external_context", DEFAULT_EDGE, "finalize_external_response");
    proof {
        new_keys_append(graph@.edges, EdgeName { from: "execute_tools"@, branch: DEFAULT_EDGE@ }, "run_model_external_context_after_tools"@);
    }
    graph.add_edge("execute_tools", DEFAULT_EDGE, "run_model_external_context_after_tools");
    proof {
        new_keys_append(graph@.edges, EdgeName { from: "run_model_external_context_after_tools"@, branch: "needs_tools"@ }, "execute_tools"@);
    }
    graph.add_edge("run_model_external_context_after_tools", "needs_tools", "execute_tools");
    proof {
        new_keys_append(graph@.edges, EdgeName { from: "run_model_external_context_after_tools"@, branch: DEFAULT_EDGE@ }, "finalize_external_response"@);
    }
    graph.add_edge("run_model_external_context_after_tools", DEFAULT_EDGE, "finalize_external_response");
    assert(graph@.edges =~= external_context_graph().edges);
    graph
}

/// The graph of a profile.
pub open spec fn profile_graph(profile: ExecutionProfile) -> Graph {
    match profile {
        ExecutionProfile::MemoryAware => default_graph(),
        ExecutionProfile::ExternalContext => external_context_graph(),
    }
}

/// The graph of a profile.
pub fn graph_for_profile(profile: ExecutionProfile) -> (graph: ExecutionGraph)
    ensures
        graph@ == profile_graph(profile),
{
    match profile {
        ExecutionProfile::MemoryAware => build_default_execution_graph(),
        ExecutionProfile::ExternalContext => build_external_context_execution_graph(),
    }
}

/// Whether a node is registered in a graph.
pub open spec fn is_registered(graph: Graph, name: Seq<char>) -> bool {
    exists|i: int| 0 <= i < graph.nodes.len() && (#[trigger] graph.nodes[i]).key == name
}

/// Whether a node of a graph leads somewhere by default.
pub open spec fn leads_on(graph: Graph, name: Seq<char>) -> bool {
    exists|k: int|
        0 <= k < graph.edges.len() && (#[trigger] graph.edges[k]).key == (EdgeName {
            from: name,
            branch: DEFAULT_EDGE@,
        })
}

/// Whether a graph starts at a registered node, has edges between registered
/// nodes only, and leads on by default from every node but the last one.
pub open spec fn is_closed(graph: Graph, last: Seq<char>) -> bool {
    &&& is_registered(graph, graph.start)
    &&& forall|k: int|
        0 <= k < graph.edges.len() ==> is_registered(graph, (#[trigger] graph.edges[k]).key.from)
            && is_registered(graph, graph.edges[k].value)
    &&& forall|i: int|
        0 <= i < graph.nodes.len() && (#[trigger] graph.nodes[i]).key != last ==> leads_on(
            graph,
            graph.nodes[i].key,
        )
}

/// Runs that keep memories never leave their graph and end with distillation.
pub proof fn default_graph_is_closed()
    ensures
        is_closed(default_graph(), "distill_current_loop"@),
{
    let graph = default_graph();
    assert(graph.nodes[0].key == graph.start);
    assert forall|k: int| 0 <= k < graph.edges.len() implies is_registered(
        graph,
        (#[trigger] graph.edges[k]).key.from,
    ) && is_registered(graph, graph.edges[k].value) by {
        if k == 0 {
            assert(graph.nodes[0].key == graph.edges[k].key.from);
            assert(graph.nodes[1].key == graph.edges[k].value);
        } else if k == 1 {
            assert(graph.nodes[1].key == graph.edges[k].key.from);
            assert(graph.nodes[2].key == graph.edges[k].value);
        } else if k == 2 {
            assert(graph.nodes[2].key == graph.edges[k].key.from);
            assert(graph.nodes[3].key == graph.edges[k].value);
        } else if k == 3 {
            assert(graph.nodes[3].key == graph.edges[k].key.from);
            assert(graph.nodes[4].key == graph.edges[k].value);
        } else if k == 4 {
            assert(graph.nodes[4].key == graph.edges[k].key.from);
            assert(graph.nodes[5].key == graph.edges[k].value);
        } else if k == 5 {
            assert(graph.nodes[5].key == graph.edges[k].key.from);
            assert(graph.nodes[6].key == graph.edges[k].value);
        } else if k == 6 {
            assert(graph.nodes[6].key == graph.edges[k].key.from);
            assert(graph.nodes[7].key == graph.edges[k].value);
        } else if k == 7 {
            assert(graph.nodes[7].key == graph.edges[k].key.from);
            assert(graph.nodes[8].key == graph.edges[k].value);
        } else if k == 8 {
            assert(graph.nodes[8].key == graph.edges[k].key.from);
            assert(graph.nodes[9].key == graph.edges[k].value);
        } else if k == 9 {
            assert(graph.nodes[9].key == graph.edges[k].key.from);
            assert(graph.nodes[10].key == graph.edges[k].value);
        } else if k == 10 {
            assert(graph.nodes[10].key == graph.edges[k].key.from);
            assert(graph.nodes[11].key == graph.edges[k].value);
        } else if k == 11 {
            assert(graph.nodes[10].key == graph.edges[k].key.from);
            assert(graph.nodes[6].key == graph.edges[k].value);
        } else if k == 12 {
            assert(graph.nodes[5].key == graph.edges[k].key.from);
            assert(graph.nodes[11].key == graph.edges[k].value);
        } else if k == 13 {
            assert(graph.nodes[11].key == graph.edges[k].key.from);
            assert(graph.nodes[12].key == graph.edges[k].value);
        } else if k == 14 {
            assert(graph.nodes[12].key == graph.edges[k].key.from);
            assert(graph.nodes[13].key == graph.edges[k].value);
        }
    }
    assert forall|i: int|
        0 <= i < graph.nodes.len() && (#[trigger] graph.nodes[i]).key != "distill_current_loop"@ implies leads_on(
        graph,
        graph.nodes[i].key,
    ) by {
        if i == 0 {
            assert(graph.edges[0].key.from == graph.nodes[i].key);
            assert(graph.edges[0].key.branch == DEFAULT_EDGE@);
        } else if i == 1 {
            assert(graph.edges[1].key.from == graph.nodes[i].key);
            assert(graph.edges[1].key.branch == DEFAULT_EDGE@);
        } else if i == 2 {
            assert(graph.edges[2].key.from == graph.nodes[i].key);
            assert(graph.edges[2].key.branch == DEFAULT_EDGE@);
        } else if i == 3 {
            assert(graph.edges[3].key.from == graph.nodes[i].key);
            assert(graph.edges[3].key.branch == DEFAULT_EDGE@);
        } else if i == 4 {
            assert(graph.edges[4].key.from == graph.nodes[i].key);
            assert(graph.edges[4].key.branch == DEFAULT_EDGE@);
        } else if i == 5 {
            assert(graph.edges[12].key.from == graph.nodes[i].key);
            assert(graph.edges[12].key.branch == DEFAULT_EDGE@);
        } else if i == 6 {
            assert(graph.edges[6].key.from == graph.nodes[i].key);
            assert(graph.edges[6].key.branch == DEFAULT_EDGE@);
        } else if i == 7 {
            assert(graph.edges[7].key.from == graph.nodes[i].key);
            assert(graph.edges[7].key.branch == DEFAULT_EDGE@);
        } else if i == 8 {
            assert(graph.edges[8].key.from == graph.nodes[i].key);
            assert(graph.edges[8].key.branch == DEFAULT_EDGE@);
        } else if i == 9 {
            assert(graph.edges[9].key.from == graph.nodes[i].key);
            assert(graph.edges[9].key.branch == DEFAULT_EDGE@);
        } else if i == 10 {
            assert(graph.edges[10].key.from == graph.nodes[i].key);
            assert(graph.edges[10].key.branch == DEFAULT_EDGE@);
        } else if i == 11 {
            assert(graph.edges[13].key.from == graph.nodes[i].key);
            assert(graph.edges[13].key.branch == DEFAULT_EDGE@);
        } else if i == 12 {
            assert(graph.edges[14].key.from == graph.nodes[i].key);
            assert(graph.edges[14].key.branch == DEFAULT_EDGE@);
        }
    }
}

/// Runs whose context the caller owns never leave their graph and end with the
/// response.
pub proof fn external_context_graph_is_closed()
    ensures
        is_closed(external_context_graph(), "finalize_external_response"@),
{
    let graph = external_context_graph();
    assert(graph.nodes[0].key == graph.start);
    assert forall|k: int| 0 <= k < graph.edges.len() implies is_registered(
        graph,
        (#[trigger] graph.edges[k]).key.from,
    ) && is_registered(graph, graph.edges[k].value) by {
        if k == 0 {
            assert(graph.nodes[0].key == graph.edges[k].key.from);
            assert(graph.nodes[1].key == graph.edges[k].value);
        } else if k == 1 {
            assert(graph.nodes[1].key == graph.edges[k].key.from);
            assert(graph.nodes[2].key == graph.edges[k].value);
        } else if k == 2 {
            assert(graph.nodes[1].key == graph.edges[k].key.from);
            assert(graph.nodes[4].key == graph.edges[k].value);
        } else if k == 3 {
            assert(graph.nodes[2].key == graph.edges[k].key.from);
            assert(graph.nodes[3].key == graph.edges[k].value);
        } else if k == 4 {
            assert(graph.nodes[3].key == graph.edges[k].key.from);
            assert(graph.nodes[2].key == graph.edges[k].value);
        } else if k == 5 {
            assert(graph.nodes[3].key == graph.edges[k].key.from);
            assert(graph.nodes[4].key == graph.edges[k].value);
        }
    }
    assert forall|i: int|
        0 <= i < graph.nodes.len() && (#[trigger] graph.nodes[i]).key != "finalize_external_response"@ implies leads_on(
        graph,
        graph.nodes[i].key,
    ) by {
        if i == 0 {
            assert(graph.edges[0].key.from == graph.nodes[i].key);
            assert(graph.edges[0].key.branch == DEFAULT_EDGE@);
        } else if i == 1 {
            assert(graph.edges[2].key.from == graph.nodes[i].key);
            assert(graph.edges[2].key.branch == DEFAULT_EDGE@);
        } else if i == 2 {
            assert(graph.edges[3].key.from == graph.nodes[i].key);
            assert(graph.edges[3].key.branch == DEFAULT_EDGE@);
        } else if i == 3 {
            assert(graph.edges[5].key.from == graph.nodes[i].key);
            assert(graph.edges[5].key.branch == DEFAULT_EDGE@);
        }
    }
}

/// A number by which the names of the nodes can be told apart.
spec fn node_number(name: Seq<char>) -> int {
    name.len() * 1000 + name[0] as int
}

/// A number by which the edges can be told apart.
spec fn edge_number(key: EdgeName) -> int {
    node_number(key.from) * 2 + if key.branch == DEFAULT_EDGE@ {
        0int
    } else {
        1
    }
}

/// In a table each key leads to its own value.
proof fn entries_are_found<K, V>(entries: Seq<Pair<K, V>>, k: int)
    requires
        table::is_table(entries),
        0 <= k < entries.len(),
    ensures
        table::lookup(entries, entries[k].key) == Some(entries[k].value),
{
    table::first_is_position(entries, entries[k].key, k as nat);
}

/// The numbers of the nodes, in order.
spec fn memory_node_numbers(i: int) -> int {
    if i == 0 {
        17105
    } else if i == 1 {
        17108
    } else if i == 2 {
        22098
    } else if i == 3 {
        15097
    } else if i == 4 {
        16097
    } else if i == 5 {
        9114
    } else if i == 6 {
        13101
    } else if i == 7 {
        31098
    } else if i == 8 {
        17114
    } else if i == 9 {
        18114
    } else if i == 10 {
        21114
    } else if i == 11 {
        24112
    } else if i == 12 {
        21109
    } else {
        20100
    }
}

/// The numbers of the edges, in order.
spec fn memory_edge_numbers(i: int) -> int {
    if i == 0 {
        34210
    } else if i == 1 {
        34216
    } else if i == 2 {
        44196
    } else if i == 3 {
        30194
    } else if i == 4 {
        32194
    } else if i == 5 {
        18229
    } else if i == 6 {
        26202
    } else if i == 7 {
        62196
    } else if i == 8 {
        34228
    } else if i == 9 {
        36228
    } else if i == 10 {
        42228
    } else if i == 11 {
        42229
    } else if i == 12 {
        18228
    } else if i == 13 {
        48224
    } else {
        42218
    }
}

/// A turn that keeps memories records what the user says, loads the session,
/// activates memories, assembles the context and asks the model; tools run as long
/// as the model asks for them, and after each round memories are activated and the
/// context is assembled anew; then the answer is recorded, what fell out of the
/// session is marked, and the loop is distilled. There is no other way through it.
pub proof fn memory_turns_take_every_step()
    ensures
        default_graph().start == "ingest_user_input"@,
        default_graph().target("ingest_user_input"@, DEFAULT_EDGE@) == Some("load_session_view"@),
        default_graph().target("load_session_view"@, DEFAULT_EDGE@) == Some("build_activation_query"@),
        default_graph().target("build_activation_query"@, DEFAULT_EDGE@) == Some("activate_memory"@),
        default_graph().target("activate_memory"@, DEFAULT_EDGE@) == Some("assemble_context"@),
        default_graph().target("assemble_context"@, DEFAULT_EDGE@) == Some("run_model"@),
        default_graph().target("run_model"@, "needs_tools"@) == Some("execute_tools"@),
        default_graph().target("execute_tools"@, DEFAULT_EDGE@) == Some("build_followup_activation_query"@),
        default_graph().target("build_followup_activation_query"@, DEFAULT_EDGE@) == Some("reactivate_memory"@),
        default_graph().target("reactivate_memory"@, DEFAULT_EDGE@) == Some("reassemble_context"@),
        default_graph().target("reassemble_context"@, DEFAULT_EDGE@) == Some("run_model_after_tools"@),
        default_graph().target("run_model_after_tools"@, DEFAULT_EDGE@) == Some("persist_assistant_output"@),
        default_graph().target("run_model_after_tools"@, "needs_tools"@) == Some("execute_tools"@),
        default_graph().target("run_model"@, DEFAULT_EDGE@) == Some("persist_assistant_output"@),
        default_graph().target("persist_assistant_output"@, DEFAULT_EDGE@) == Some("mark_session_overflow"@),
        default_graph().target("mark_session_overflow"@, DEFAULT_EDGE@) == Some("distill_current_loop"@),
        default_graph().class_of("ingest_user_input"@) == Some(NodeRuntimeClass::Standard),
        default_graph().class_of("load_session_view"@) == Some(NodeRuntimeClass::Standard),
        default_graph().class_of("build_activation_query"@) == Some(NodeRuntimeClass::Standard),
        default_graph().class_of("activate_memory"@) == Some(NodeRuntimeClass::Standard),
        default_graph().class_of("assemble_context"@) == Some(NodeRuntimeClass::Standard),
        default_graph().class_of("run_model"@) == Some(NodeRuntimeClass::Model),
        default_graph().class_of("execute_tools"@) == Some(NodeRuntimeClass::ToolExecution),
        default_graph().class_of("build_followup_activation_query"@) == Some(NodeRuntimeClass::Standard),
        default_graph().class_of("reactivate_memory"@) == Some(NodeRuntimeClass::Standard),
        default_graph().class_of("reassemble_context"@) == Some(NodeRuntimeClass::Standard),
        default_graph().class_of("run_model_after_tools"@) == Some(NodeRuntimeClass::Model),
        default_graph().class_of("persist_assistant_output"@) == Some(NodeRuntimeClass::Standard),
        default_graph().class_of("mark_session_overflow"@) == Some(NodeRuntimeClass::Standard),
        default_graph().class_of("distill_current_loop"@) == Some(NodeRuntimeClass::Distillation),
        default_graph().edges.len() == 15,
        default_graph().nodes.len() == 14,
{
    reveal_strlit("ingest_user_input");
    reveal_strlit("load_session_view");
    reveal_strlit("build_activation_query");
    reveal_strlit("activate_memory");
    reveal_strlit("assemble_context");
    reveal_strlit("run_model");
    reveal_strlit("execute_tools");
    reveal_strlit("build_followup_activation_query");
    reveal_strlit("reactivate_memory");
    reveal_strlit("reassemble_context");
    reveal_strlit("run_model_after_tools");
    reveal_strlit("persist_assistant_output");
    reveal_strlit("mark_session_overflow");
    reveal_strlit("distill_current_loop");
    reveal_strlit("needs_tools");
    reveal_strlit("__default__");
    assert("needs_tools"@[0] != DEFAULT_EDGE@[0]);
    let graph = default_graph();
    assert(node_number("ingest_user_input"@) == 17105);
    assert(node_number("load_session_view"@) == 17108);
    assert(node_number("build_activation_query"@) == 22098);
    assert(node_number("activate_memory"@) == 15097);
    assert(node_number("assemble_context"@) == 16097);
    assert(node_number("run_model"@) == 9114);
    assert(node_number("execute_tools"@) == 13101);
    assert(node_number("build_followup_activation_query"@) == 31098);
    assert(node_number("reactivate_memory"@) == 17114);
    assert(node_number("reassemble_context"@) == 18114);
    assert(node_number("run_model_after_tools"@) == 21114);
    assert(node_number("persist_assistant_output"@) == 24112);
    assert(node_number("mark_session_overflow"@) == 21109);
    assert(node_number("distill_current_loop"@) == 20100);
    assert forall|i: int| 0 <= i < graph.nodes.len() implies node_number(
        (#[trigger] graph.nodes[i]).key,
    ) == memory_node_numbers(i) by {}
    assert forall|i: int| 0 <= i < graph.edges.len() implies edge_number(
        (#[trigger] graph.edges[i]).key,
    ) == memory_edge_numbers(i) by {}
    assert forall|i: int, j: int| 0 <= i < j < graph.nodes.len() implies (
    #[trigger] graph.nodes[i]).key != (#[trigger] graph.nodes[j]).key by {
        assert(memory_node_numbers(i) != memory_node_numbers(j));
    }
    assert forall|i: int, j: int| 0 <= i < j < graph.edges.len() implies (
    #[trigger] graph.edges[i]).key != (#[trigger] graph.edges[j]).key by {
        assert(memory_edge_numbers(i) != memory_edge_numbers(j));
    }
    entries_are_found(graph.edges, 0);
    entries_are_found(graph.edges, 1);
    entries_are_found(graph.edges, 2);
    entries_are_found(graph.edges, 3);
    entries_are_found(graph.edges, 4);
    entries_are_found(graph.edges, 5);
    entries_are_found(graph.edges, 6);
    entries_are_found(graph.edges, 7);
    entries_are_found(graph.edges, 8);
    entries_are_found(graph.edges, 9);
    entries_are_found(graph.edges, 10);
    entries_are_found(graph.edges, 11);
    entries_are_found(graph.edges, 12);
    entries_are_found(graph.edges, 13);
    entries_are_found(graph.edges, 14);
    entries_are_found(graph.nodes, 0);
    entries_are_found(graph.nodes, 1);
    entries_are_found(graph.nodes, 2);
    entries_are_found(graph.nodes, 3);
    entries_are_found(graph.nodes, 4);
    entries_are_found(graph.nodes, 5);
    entries_are_found(graph.nodes, 6);
    entries_are_found(graph.nodes, 7);
    entries_are_found(graph.nodes, 8);
    entries_are_found(graph.nodes, 9);
    entries_are_found(graph.nodes, 10);
    entries_are_found(graph.nodes, 11);
    entries_are_found(graph.nodes, 12);
    entries_are_found(graph.nodes, 13);
}

/// The numbers of the nodes, in order.
spec fn external_node_numbers(i: int) -> int {
    if i == 0 {
        25097
    } else if i == 1 {
        26114
    } else if i == 2 {
        13101
    } else if i == 3 {
        38114
    } else {
        26102
    }
}

/// The numbers of the edges, in order.
spec fn external_edge_numbers(i: int) -> int {
    if i == 0 {
        50194
    } else if i == 1 {
        52229
    } else if i == 2 {
        52228
    } else if i == 3 {
        26202
    } else if i == 4 {
        76229
    } else {
        76228
    }
}

/// A turn with a context from outside assembles it and asks the model; tools run
/// as long as the model asks for them, and then the answer is settled. There is no
/// other way through it.
pub proof fn external_turns_take_every_step()
    ensures
        external_context_graph().start == "assemble_external_context"@,
        external_context_graph().target("assemble_external_context"@, DEFAULT_EDGE@) == Some("run_model_external_context"@),
        external_context_graph().target("run_model_external_context"@, "needs_tools"@) == Some("execute_tools"@),
        external_context_graph().target("run_model_external_context"@, DEFAULT_EDGE@) == Some("finalize_external_response"@),
        external_context_graph().target("execute_tools"@, DEFAULT_EDGE@) == Some("run_model_external_context_after_tools"@),
        external_context_graph().target("run_model_external_context_after_tools"@, "needs_tools"@) == Some("execute_tools"@),
        external_context_graph().target("run_model_external_context_after_tools"@, DEFAULT_EDGE@) == Some("finalize_external_response"@),
        external_context_graph().class_of("assemble_external_context"@) == Some(NodeRuntimeClass::Standard),
        external_context_graph().class_of("run_model_external_context"@) == Some(NodeRuntimeClass::Model),
        external_context_graph().class_of("execute_tools"@) == Some(NodeRuntimeClass::ToolExecution),
        external_context_graph().class_of("run_model_external_context_after_tools"@) == Some(NodeRuntimeClass::Model),
        external_context_graph().class_of("finalize_external_response"@) == Some(NodeRuntimeClass::Standard),
        external_context_graph().edges.len() == 6,
        external_context_graph().nodes.len() == 5,
{
    reveal_strlit("assemble_external_context");
    reveal_strlit("run_model_external_context");
    reveal_strlit("execute_tools");
    reveal_strlit("run_model_external_context_after_tools");
    reveal_strlit("finalize_external_response");
    reveal_strlit("needs_tools");
    reveal_strlit("__default__");
    assert("needs_tools"@[0] != DEFAULT_EDGE@[0]);
    let graph = external_context_graph();
    assert(node_number("assemble_external_context"@) == 25097);
    assert(node_number("run_model_external_context"@) == 26114);
    assert(node_number("execute_tools"@) == 13101);
    assert(node_number("run_model_external_context_after_tools"@) == 38114);
    assert(node_number("finalize_external_response"@) == 26102);
    assert forall|i: int| 0 <= i < graph.nodes.len() implies node_number(
        (#[trigger] graph.nodes[i]).key,
    ) == external_node_numbers(i) by {}
    assert forall|i: int| 0 <= i < graph.edges.len() implies edge_number(
        (#[trigger] graph.edges[i]).key,
    ) == external_edge_numbers(i) by {}
    assert forall|i: int, j: int| 0 <= i < j < graph.nodes.len() implies (
    #[trigger] graph.nodes[i]).key != (#[trigger] graph.nodes[j]).key by {
        assert(external_node_numbers(i) != external_node_numbers(j));
    }
    assert forall|i: int, j: int| 0 <= i < j < graph.edges.len() implies (
    #[trigger] graph.edges[i]).key != (#[trigger] graph.edges[j]).key by {
        assert(external_edge_numbers(i) != external_edge_numbers(j));
    }
    entries_are_found(graph.edges, 0);
    entries_are_found(graph.edges, 1);
    entries_are_found(graph.edges, 2);
    entries_are_found(graph.edges, 3);
    entries_are_found(graph.edges, 4);
    entries_are_found(graph.edges, 5);
    entries_are_found(graph.nodes, 0);
    entries_are_found(graph.nodes, 1);
    entries_are_found(graph.nodes, 2);
    entries_are_found(graph.nodes, 3);
    entries_are_found(graph.nodes, 4);
}

/// A profile that keeps memories takes the steps that do, and the other one the
/// steps that do not.
pub proof fn profiles_take_their_own_steps()
    ensures
        profile_graph(ExecutionProfile::MemoryAware).start == "ingest_user_input"@,
        profile_graph(ExecutionProfile::ExternalContext).start == "assemble_external_context"@,
        profile_graph(ExecutionProfile::MemoryAware) == default_graph(),
        profile_graph(ExecutionProfile::ExternalContext) == external_context_graph(),
{
}

} // verus!
