//! How a run proceeds from node to node: what is checkpointed, when it stops
//! and where it goes next.
use std::sync::Arc;
use vstd::prelude::*;

use crate::domain::loop_state::{LoopState, LoopStatus};
use crate::engine::execution_graph;
use crate::engine::execution_graph::{
    EdgeName, ExecutionGraph, ExecutionState, Graph, GraphRunResult, NodeOutcome, NodeRuntimeClass,
    ResolvedRunOptions, State, DEFAULT_EDGE,
};
use crate::error;
use crate::error::{EngineError, Result};
use crate::table;
use crate::text;

verus! {

/// The checkpoint to save and the result to return when a run stops.
#[derive(Debug)]
pub struct RunEnd {
    pub checkpoint: LoopState,
    pub result: GraphRunResult,
}

/// What to do about the node that is up next.
#[derive(Debug)]
pub enum NodeStart {
    /// Save the checkpoint and return the result.
    Stop(RunEnd),
    /// Save the checkpoint and run the node under its time limit.
    Run { checkpoint: LoopState, class: NodeRuntimeClass },
}

/// How the execution of a node came out.
#[derive(Debug)]
pub enum NodeExecutionResult {
    Completed(Result<NodeOutcome>),
    TimedOut,
    Cancelled,
}

/// What to do after a node.
#[derive(Debug)]
pub enum NodeStep {
    /// Save the checkpoint and return the result.
    Stop(RunEnd),
    /// Save the checkpoint and return the error.
    Fail { checkpoint: LoopState, error: EngineError },
    /// Clear the checkpoint and return the result.
    Finish(GraphRunResult),
    /// Go on with this node.
    Proceed(String),
}

/// Whether a result reports this state at this node with this status.
pub open spec fn is_result(
    result: GraphRunResult,
    state: State,
    node: Seq<char>,
    status: LoopStatus,
) -> bool {
    &&& result.status == status
    &&& result.completed_steps == state.iteration
    &&& result.tool_rounds_completed == state.tool_rounds_completed
    &&& text::opt_text(result.last_node) == Some(node)
}

/// Whether a run ends with this state at this node with this status.
pub open spec fn is_end(end: RunEnd, state: State, node: Seq<char>, status: LoopStatus) -> bool {
    &&& execution_graph::is_checkpoint(end.checkpoint, state, node, status)
    &&& is_result(end.result, state, node, status)
}

/// The state with one more step counted.
pub open spec fn with_step(state: State) -> State {
    State { iteration: (state.iteration + 1) as u32, ..state }
}

/// The state with a node recorded as completed.
pub open spec fn with_completed(state: State, node: Seq<char>) -> State {
    State { last_completed_node: Some(node), ..state }
}

/// Whether this is what to do about the node that is up next.
pub open spec fn starts(
    graph: Graph,
    node: Seq<char>,
    before: State,
    max_graph_steps: u32,
    cancelled: bool,
    after: State,
    result: Result<NodeStart>,
) -> bool {
    if cancelled {
        &&& after == before
        &&& result matches Ok(NodeStart::Stop(end)) && is_end(
            end,
            before,
            node,
            LoopStatus::Cancelled,
        )
    } else if before.iteration >= max_graph_steps {
        &&& after == before
        &&& result matches Ok(NodeStart::Stop(end)) && is_end(
            end,
            before,
            node,
            LoopStatus::TimedOut,
        )
    } else {
        match graph.class_of(node) {
            None => {
                &&& after == before
                &&& result is Err
                &&& error::is_configuration(
                    result->Err_0,
                    execution_graph::unregistered_message(node),
                )
            },
            Some(expected) => {
                &&& after == with_step(before)
                &&& result matches Ok(NodeStart::Run { checkpoint, class }) && class == expected
                    && execution_graph::is_checkpoint(
                    checkpoint,
                    with_step(before),
                    node,
                    LoopStatus::Running,
                )
            },
        }
    }
}

/// Whether this is what to do after a node that completed.
pub open spec fn follows(
    graph: Graph,
    node: Seq<char>,
    before: State,
    outcome: NodeOutcome,
    result: Result<NodeStep>,
) -> bool {
    let after = with_completed(before, node);
    match outcome {
        NodeOutcome::Finish => result matches Ok(NodeStep::Finish(ended)) && is_result(
            ended,
            after,
            node,
            LoopStatus::Finished,
        ),
        NodeOutcome::Pause => result matches Ok(NodeStep::Stop(end)) && is_end(
            end,
            after,
            node,
            LoopStatus::Paused,
        ),
        NodeOutcome::Continue => match graph.target(node, DEFAULT_EDGE@) {
            Some(next) => result matches Ok(NodeStep::Proceed(name)) && name@ == next,
            None => result is Err && error::is_configuration(
                result->Err_0,
                "missing default edge from execution node "@ + node,
            ),
        },
        NodeOutcome::Branch(branch) => match graph.target(node, branch@) {
            Some(next) => result matches Ok(NodeStep::Proceed(name)) && name@ == next,
            None => result is Err && error::is_configuration(
                result->Err_0,
                "missing branch edge "@ + branch@ + " from execution node "@ + node,
            ),
        },
    }
}

/// Whether this is what to do after a node.
pub open spec fn settles(
    graph: Graph,
    node: Seq<char>,
    class: NodeRuntimeClass,
    before: State,
    execution: NodeExecutionResult,
    cancelled: bool,
    after: State,
    result: Result<NodeStep>,
) -> bool {
    match execution {
        NodeExecutionResult::Cancelled | NodeExecutionResult::Completed(
            Err(EngineError::Cancelled),
        ) => {
            &&& after == before
            &&& result matches Ok(NodeStep::Stop(end)) && is_end(
                end,
                before,
                node,
                LoopStatus::Cancelled,
            )
        },
        NodeExecutionResult::TimedOut => {
            &&& after == before
            &&& result matches Ok(NodeStep::Stop(end)) && is_end(
                end,
                before,
                node,
                LoopStatus::TimedOut,
            )
        },
        NodeExecutionResult::Completed(Err(failure)) => {
            &&& after == before
            &&& result matches Ok(NodeStep::Fail { checkpoint, error }) && error == failure
                && execution_graph::is_checkpoint(checkpoint, before, node, LoopStatus::Failed)
        },
        NodeExecutionResult::Completed(Ok(outcome)) => if cancelled && class
            != NodeRuntimeClass::ToolExecution {
            &&& after == before
            &&& result matches Ok(NodeStep::Stop(end)) && is_end(
                end,
                before,
                node,
                LoopStatus::Cancelled,
            )
        } else {
            &&& after == with_completed(before, node)
            &&& follows(graph, node, before, outcome, result)
        },
    }
}

/// Why a checkpoint is not continued under some guards, if it is not.
pub enum Refusal {
    /// The guards themselves are refused.
    Guards(Seq<char>),
    /// The loop is not in the status that is needed.
    Status(LoopStatus),
    /// The checkpoint does not belong to its own state.
    Checkpoint(Seq<char>),
    /// The run was started under another profile.
    Profile(Seq<char>),
}

/// Why a checkpoint is not continued from a status, if it is not.
pub open spec fn continuation_refusal(
    checkpoint: LoopState,
    options: ResolvedRunOptions,
    needed: LoopStatus,
) -> Option<Refusal> {
    if options.fault() is Some {
        Some(Refusal::Guards(options.fault()->0))
    } else if checkpoint.status != needed {
        Some(Refusal::Status(checkpoint.status))
    } else if execution_graph::checkpoint_fault(checkpoint) is Some {
        Some(Refusal::Checkpoint(execution_graph::checkpoint_fault(checkpoint)->0))
    } else if checkpoint.state@.execution_profile != options.execution_profile {
        Some(
            Refusal::Profile(
                "checkpoint execution profile "@ + checkpoint.state@.execution_profile.name()
                    + " does not match requested profile "@ + options.execution_profile.name(),
            ),
        )
    } else {
        None
    }
}

/// Whether an error reports a refusal.
pub open spec fn is_refusal(failure: EngineError, refusal: Refusal) -> bool {
    match refusal {
        Refusal::Guards(message) => error::is_configuration(failure, message),
        Refusal::Status(status) => failure == EngineError::LoopTerminated(status),
        Refusal::Checkpoint(message) => error::is_recovery_unsafe(failure, message),
        Refusal::Profile(message) => error::is_configuration(failure, message),
    }
}

/// Whether a checkpoint is continued from a status.
pub open spec fn continues(
    checkpoint: LoopState,
    options: ResolvedRunOptions,
    needed: LoopStatus,
    result: Result<(ExecutionState, String)>,
) -> bool {
    match continuation_refusal(checkpoint, options, needed) {
        Some(refusal) => result is Err && is_refusal(result->Err_0, refusal),
        None => result is Ok && result->Ok_0.0 == checkpoint.state && result->Ok_0.1
            == checkpoint.current_node,
    }
}

/// Guides runs through a graph.
#[derive(Debug)]
pub struct GraphRunner {
    pub graph: Arc<ExecutionGraph>,
}

impl GraphRunner {
    /// A runner of a graph.
    pub fn new(graph: Arc<ExecutionGraph>) -> (runner: Self)
        ensures
            runner.graph == graph,
    {
        GraphRunner { graph }
    }

    /// Starts a run: checks the guards, stamps the profile and gives the first
    /// node.
    pub fn run(&self, state: &mut ExecutionState, options: &ResolvedRunOptions) -> (result: Result<
        String,
    >)
        ensures
            match options.fault() {
                Some(message) => result is Err && error::is_configuration(result->Err_0, message)
                    && final(state)@ == old(state)@,
                None => result is Ok && result->Ok_0@ == self.graph@.start && final(state)@ == (
                State { execution_profile: options.execution_profile, ..old(state)@ }),
            },
    {
        match options.validate() {
            Ok(()) => {},
            Err(failure) => return Err(failure),
        }
        state.execution_profile = options.execution_profile;
        Ok(self.graph.start_node().to_string())
    }

    /// Continues a paused run.
    pub fn resume(&self, checkpoint: LoopState, options: &ResolvedRunOptions) -> (result: Result<
        (ExecutionState, String),
    >)
        ensures
            continues(checkpoint, *options, LoopStatus::Paused, result),
    {
        continue_from(checkpoint, options, LoopStatus::Paused)
    }

    /// Continues a run that was interrupted while a node was running. The
    /// checkpoint was written in front of that node, so the node runs again.
    pub fn recover_running(
        &self,
        checkpoint: LoopState,
        options: &ResolvedRunOptions,
    ) -> (result: Result<(ExecutionState, String)>)
        ensures
            continues(checkpoint, *options, LoopStatus::Running, result),
    {
        continue_from(checkpoint, options, LoopStatus::Running)
    }

    /// Ends a cancelled run in front of a node.
    pub fn cancelled(&self, current_node: &str, state: &ExecutionState) -> (end: RunEnd)
        ensures
            is_end(end, state@, current_node@, LoopStatus::Cancelled),
    {
        stop(current_node, state, LoopStatus::Cancelled)
    }

    /// Decides about the node that is up next: nothing runs after cancellation
    /// or beyond the step budget, and a checkpoint goes before every node.
    pub fn begin_node(
        &self,
        current_node: &str,
        state: &mut ExecutionState,
        options: &ResolvedRunOptions,
        cancelled: bool,
    ) -> (result: Result<NodeStart>)
        ensures
            starts(
                self.graph@,
                current_node@,
                old(state)@,
                options.max_graph_steps,
                cancelled,
                final(state)@,
                result,
            ),
    {
        if cancelled {
            return Ok(NodeStart::Stop(stop(current_node, state, LoopStatus::Cancelled)));
        }
        if state.iteration >= options.max_graph_steps {
            return Ok(NodeStart::Stop(stop(current_node, state, LoopStatus::TimedOut)));
        }
        let class = match self.graph.node(current_node) {
            Ok(class) => class,
            Err(failure) => return Err(failure),
        };
        state.iteration = state.iteration + 1;
        let checkpoint = state.checkpoint(current_node.to_string(), LoopStatus::Running);
        Ok(NodeStart::Run { checkpoint, class })
    }

    /// Decides what follows the execution of a node.
    pub fn settle_node(
        &self,
        current_node: &str,
        class: NodeRuntimeClass,
        state: &mut ExecutionState,
        execution: NodeExecutionResult,
        cancelled: bool,
    ) -> (result: Result<NodeStep>)
        ensures
            settles(
                self.graph@,
                current_node@,
                class,
                old(state)@,
                execution,
                cancelled,
                final(state)@,
                result,
            ),
    {
        let outcome = match execution {
            NodeExecutionResult::Cancelled => return Ok(
                NodeStep::Stop(stop(current_node, state, LoopStatus::Cancelled)),
            ),
            NodeExecutionResult::TimedOut => return Ok(
                NodeStep::Stop(stop(current_node, state, LoopStatus::TimedOut)),
            ),
            NodeExecutionResult::Completed(Err(EngineError::Cancelled)) => return Ok(
                NodeStep::Stop(stop(current_node, state, LoopStatus::Cancelled)),
            ),
            NodeExecutionResult::Completed(Err(error)) => {
                let checkpoint = state.checkpoint(current_node.to_string(), LoopStatus::Failed);
                return Ok(NodeStep::Fail { checkpoint, error });
            },
            NodeExecutionResult::Completed(Ok(outcome)) => outcome,
        };
        if cancelled && class != NodeRuntimeClass::ToolExecution {
            return Ok(NodeStep::Stop(stop(current_node, state, LoopStatus::Cancelled)));
        }
        state.last_completed_node = Some(current_node.to_string());
        match outcome {
            NodeOutcome::Finish => Ok(
                NodeStep::Finish(report(current_node, state, LoopStatus::Finished)),
            ),
            NodeOutcome::Pause => Ok(
                NodeStep::Stop(stop(current_node, state, LoopStatus::Paused)),
            ),
            _ => match self.graph.resolve_next(current_node, &outcome) {
                Ok(Some(next)) => Ok(NodeStep::Proceed(next)),
                Ok(None) => Err(
                    EngineError::Configuration(
                        "execution graph node ".to_string().concat(current_node).concat(
                            " did not resolve to a next node",
                        ),
                    ),
                ),
                Err(failure) => Err(failure),
            },
        }
    }
}

fn report(current_node: &str, state: &ExecutionState, status: LoopStatus) -> (result:
    GraphRunResult)
    ensures
        is_result(result, state@, current_node@, status),
{
    GraphRunResult {
        status,
        completed_steps: state.iteration,
        tool_rounds_completed: state.tool_rounds_completed,
        last_node: Some(current_node.to_string()),
    }
}

fn stop(current_node: &str, state: &ExecutionState, status: LoopStatus) -> (end: RunEnd)
    ensures
        is_end(end, state@, current_node@, status),
{
    RunEnd {
        checkpoint: state.checkpoint(current_node.to_string(), status),
        result: report(current_node, state, status),
    }
}

fn continue_from(
    checkpoint: LoopState,
    options: &ResolvedRunOptions,
    needed: LoopStatus,
) -> (result: Result<(ExecutionState, String)>)
    ensures
        continues(checkpoint, *options, needed, result),
{
    match options.validate() {
        Ok(()) => {},
        Err(failure) => return Err(failure),
    }
    if checkpoint.status != needed {
        return Err(EngineError::LoopTerminated(checkpoint.status));
    }
    match ExecutionState::from_checkpoint(checkpoint) {
        Err(failure) => Err(failure),
        Ok((state, current_node, _status)) => {
            if state.execution_profile != options.execution_profile {
                return Err(
                    EngineError::Configuration(
                        "checkpoint execution profile ".to_string().concat(
                            state.execution_profile.describe(),
                        ).concat(" does not match requested profile ").concat(
                            options.execution_profile.describe(),
                        ),
                    ),
                );
            }
            Ok((state, current_node))
        },
    }
}

/// A node only runs while steps are left, and running it takes one.
pub proof fn every_run_takes_a_step(
    graph: Graph,
    node: Seq<char>,
    before: State,
    max_graph_steps: u32,
    cancelled: bool,
    after: State,
    result: Result<NodeStart>,
)
    requires
        starts(graph, node, before, max_graph_steps, cancelled, after, result),
        result matches Ok(NodeStart::Run { .. }),
    ensures
        !cancelled,
        before.iteration < max_graph_steps,
        after.iteration == before.iteration + 1,
        after.iteration <= max_graph_steps,
{
}

/// What a node does to the state in between never gives steps back.
pub open spec fn keeps_steps(before: State, after: State) -> bool {
    before.iteration <= after.iteration
}

/// However long a run goes on, it runs no more nodes than its step budget: in
/// any history of states in which the first of each pair is in front of a node
/// that ran, the number of nodes is limited.
pub proof fn runs_are_bounded(history: Seq<State>, max_graph_steps: u32)
    requires
        forall|k: int|
            0 <= k < history.len() - 1 ==> (#[trigger] history[k]).iteration < max_graph_steps
                && keeps_steps(with_step(history[k]), history[k + 1]),
        history.len() > 0,
    ensures
        history.len() - 1 <= max_graph_steps - history[0].iteration || history.len() == 1,
    decreases history.len(),
{
    if history.len() > 1 {
        let rest = history.drop_last();
        runs_are_bounded(rest, max_graph_steps);
        iterations_grow(history, history.len() - 2);
    }
}

proof fn iterations_grow(history: Seq<State>, k: int)
    requires
        0 <= k < history.len() - 1,
        forall|j: int|
            0 <= j < history.len() - 1 ==> keeps_steps(
                with_step(#[trigger] history[j]),
                history[j + 1],
            ) && history[j].iteration < u32::MAX,
    ensures
        history[k].iteration >= history[0].iteration + k,
    decreases k,
{
    if k > 0 {
        iterations_grow(history, k - 1);
        assert(keeps_steps(with_step(history[k - 1]), history[k]));
    }
}

/// A run that is told to stop before a node leaves the state as it was, in a
/// checkpoint that can be read back.
pub proof fn stopping_loses_nothing(
    graph: Graph,
    node: Seq<char>,
    before: State,
    max_graph_steps: u32,
    cancelled: bool,
    after: State,
    result: Result<NodeStart>,
)
    requires
        starts(graph, node, before, max_graph_steps, cancelled, after, result),
        result matches Ok(NodeStart::Stop(_)),
    ensures
        after == before,
        result matches Ok(NodeStart::Stop(end)) && execution_graph::checkpoint_fault(
            end.checkpoint,
        ) is None && end.checkpoint.state@ == before && end.checkpoint.current_node@ == node,
{
}

/// A paused run resumes, under its own profile, in the state and at the node
/// where it paused.
pub proof fn paused_runs_resume(
    end: RunEnd,
    state: State,
    node: Seq<char>,
    options: ResolvedRunOptions,
)
    requires
        is_end(end, state, node, LoopStatus::Paused),
        options.fault() is None,
        options.execution_profile == state.execution_profile,
    ensures
        continuation_refusal(end.checkpoint, options, LoopStatus::Paused) is None,
        end.checkpoint.state@ == state,
        end.checkpoint.current_node@ == node,
{
}

/// No loop that ended, and none that is still running, can be resumed.
pub proof fn only_paused_runs_resume(checkpoint: LoopState, options: ResolvedRunOptions)
    requires
        options.fault() is None,
        checkpoint.status != LoopStatus::Paused,
    ensures
        continuation_refusal(checkpoint, options, LoopStatus::Paused) == Some(
            Refusal::Status(checkpoint.status),
        ),
{
}

/// A node runs unless the run was cancelled, has taken all its steps, or stands
/// at a node that the graph does not know. Before it runs, the step is counted
/// and a checkpoint says that it is running, with the state as it then is.
pub proof fn nodes_run_unless_stopped(
    graph: Graph,
    node: Seq<char>,
    before: State,
    max_graph_steps: u32,
    cancelled: bool,
    after: State,
    result: Result<NodeStart>,
)
    requires
        starts(graph, node, before, max_graph_steps, cancelled, after, result),
    ensures
        cancelled ==> (result matches Ok(NodeStart::Stop(end)) && end.result.status
            == LoopStatus::Cancelled && end.checkpoint.status == LoopStatus::Cancelled),
        !cancelled && before.iteration >= max_graph_steps ==> (result matches Ok(
            NodeStart::Stop(end),
        ) && end.result.status == LoopStatus::TimedOut && end.checkpoint.status
            == LoopStatus::TimedOut),
        !cancelled && before.iteration < max_graph_steps && table::lookup(
            graph.nodes,
            node,
        ) is None ==> result is Err,
        !cancelled && before.iteration < max_graph_steps && table::lookup(
            graph.nodes,
            node,
        ) is Some ==> {
            &&& after == (State { iteration: (before.iteration + 1) as u32, ..before })
            &&& result matches Ok(NodeStart::Run { checkpoint, class }) && Some(class)
                == table::lookup(graph.nodes, node) && checkpoint.state@ == after
                && checkpoint.current_node@ == node && checkpoint.status == LoopStatus::Running
                && checkpoint.session_id == before.session_id && checkpoint.loop_id
                == before.loop_id
        },
        result matches Ok(NodeStart::Stop(end)) ==> end.result.completed_steps == before.iteration
            && end.result.tool_rounds_completed == before.tool_rounds_completed,
{
}

/// What comes of a node decides where the run goes on: along the edge that its
/// outcome names, to its end, or to a pause from which it can be resumed. The node
/// is then the last that was completed, and nothing else changes. A node that
/// failed, ran out of time or was cancelled leaves the state as it was, in a
/// checkpoint that says so; a cancelled run still goes on after tools, whose
/// effects cannot be taken back.
pub proof fn outcomes_lead_on(
    graph: Graph,
    node: Seq<char>,
    class: NodeRuntimeClass,
    before: State,
    execution: NodeExecutionResult,
    cancelled: bool,
    after: State,
    result: Result<NodeStep>,
)
    requires
        settles(graph, node, class, before, execution, cancelled, after, result),
    ensures
        ({
            let goes_on = !cancelled || class == NodeRuntimeClass::ToolExecution;
            let done = State { last_completed_node: Some(node), ..before };
            &&& execution matches NodeExecutionResult::Completed(Ok(outcome)) ==> if goes_on {
                &&& after == done
                &&& outcome is Continue ==> (match table::lookup(
                    graph.edges,
                    EdgeName { from: node, branch: "__default__"@ },
                ) {
                    Some(next) => result matches Ok(NodeStep::Proceed(name)) && name@ == next,
                    None => result is Err,
                })
                &&& outcome matches NodeOutcome::Branch(branch) ==> (match table::lookup(
                    graph.edges,
                    EdgeName { from: node, branch: branch@ },
                ) {
                    Some(next) => result matches Ok(NodeStep::Proceed(name)) && name@ == next,
                    None => result is Err,
                })
                &&& outcome is Finish ==> (result matches Ok(NodeStep::Finish(ended))
                    && ended.status == LoopStatus::Finished && ended.completed_steps
                    == before.iteration && ended.tool_rounds_completed
                    == before.tool_rounds_completed)
                &&& outcome is Pause ==> (result matches Ok(NodeStep::Stop(end))
                    && end.result.status == LoopStatus::Paused && end.checkpoint.status
                    == LoopStatus::Paused && end.checkpoint.state@ == done
                    && end.checkpoint.current_node@ == node)
            } else {
                &&& after == before
                &&& result matches Ok(NodeStep::Stop(end)) && end.checkpoint.status
                    == LoopStatus::Cancelled && end.checkpoint.state@ == before
            }
            &&& execution matches NodeExecutionResult::Completed(Err(failure)) ==> if failure is Cancelled {
                result matches Ok(NodeStep::Stop(end)) && end.checkpoint.status
                    == LoopStatus::Cancelled && end.checkpoint.state@ == before && after == before
            } else {
                result matches Ok(NodeStep::Fail { checkpoint, error }) && error == failure
                    && checkpoint.status == LoopStatus::Failed && checkpoint.state@ == before
                    && checkpoint.current_node@ == node && after == before
            }
            &&& execution is TimedOut ==> (result matches Ok(NodeStep::Stop(end))
                && end.checkpoint.status == LoopStatus::TimedOut && end.checkpoint.state@ == before
                && end.checkpoint.current_node@ == node && after == before)
            &&& execution is Cancelled ==> (result matches Ok(NodeStep::Stop(end))
                && end.checkpoint.status == LoopStatus::Cancelled && end.checkpoint.state@ == before
                && end.checkpoint.current_node@ == node && after == before)
        }),
{
}

/// A checkpoint is continued exactly where the guards are sound, its loop stands
/// where it must, it is sound itself and it is of the profile that is asked for;
/// and then with the state and at the node that it holds.
pub proof fn checkpoints_are_continued_as_they_stand(
    checkpoint: LoopState,
    options: ResolvedRunOptions,
    needed: LoopStatus,
    result: Result<(ExecutionState, String)>,
)
    requires
        continues(checkpoint, options, needed, result),
    ensures
        result is Ok <==> {
            &&& options.fault() is None
            &&& checkpoint.status == needed
            &&& execution_graph::checkpoint_fault(checkpoint) is None
            &&& checkpoint.state@.execution_profile == options.execution_profile
        },
        result matches Ok(found) ==> found.0@ == checkpoint.state@ && found.1@
            == checkpoint.current_node@,
        options.fault() is None && checkpoint.status != needed ==> result == Err::<
            (ExecutionState, String),
            EngineError,
        >(EngineError::LoopTerminated(checkpoint.status)),
{
}

} // verus!
