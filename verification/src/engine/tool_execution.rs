//! A round of tools from its pending calls to its answers: which call is
//! prepared, run, recorded and shown next, and when the round ends.
use vstd::prelude::*;

use crate::config::{EngineConfig, ToolsConfig};
use crate::domain::raw_node::{Content, DistillationState, Raw, RawNode, RawNodeKind};
use crate::engine::estimator;
use crate::engine::estimator::TokenEstimator;
use crate::engine::execution_graph::{ExecutionProfile, ExecutionState, State};
use crate::engine::operation_keys;
use crate::engine::operation_keys::tool_result_operation_key;
use crate::engine::tool_budget;
use crate::engine::tool_phases;
use crate::engine::tool_phases::{
    round_ending, tool_outcome, tool_phases, PreparedToolCall, TimedToolOutcome,
};
use crate::engine::tool_results;
use crate::engine::tool_results::{
    close_round, record_tool_result, returned_result, show_result, tool_result_node,
};
use crate::engine::tool_round;
use crate::engine::tool_round::{
    open_round, plan_round, prepare_round_call, used_call_ids, RoundPlan,
};
use crate::engine::tool_storage;
use crate::engine::tool_storage::bound_tool_result_for_storage;
use crate::error;
use crate::error::{EngineError, Result};
use crate::float32::Float32;
use crate::ids::{LoopId, SessionId};
use crate::model::runner;
use crate::model::runner::{clone_calls, Message, ToolCall, ToolCallRequest};
use crate::text;
use crate::time::Duration;
use crate::tools::executor;
use crate::tools::executor::{ToolCallResult, ToolExecutionKind, ToolResult};

verus! {

/// Which round of which loop runs, and how.
#[derive(Debug, Clone, Copy, PartialEq, Eq, Structural)]
pub struct RoundKey {
    pub session_id: SessionId,
    pub loop_id: LoopId,
    pub round: u32,
    pub profile: ExecutionProfile,
}

/// A prepared call that waits for what is known of it.
#[derive(Debug)]
pub struct WaitingCall {
    pub call: ToolCallRequest,
    /// Where the record of the call is looked up, and later kept.
    pub operation_key: String,
}

/// A round whose calls are being prepared, one after the other.
#[derive(Debug)]
pub struct RoundOpening {
    pub key: RoundKey,
    pub pending: Vec<ToolCallRequest>,
    /// The correlation ids that the turn has used.
    pub used: Vec<String>,
    pub prepared: Vec<PreparedToolCall>,
    pub waiting: Option<WaitingCall>,
}

/// The calls that were prepared.
pub open spec fn ready_calls(prepared: Seq<PreparedToolCall>) -> Seq<ToolCall> {
    prepared.map_values(|item: PreparedToolCall| item.call@)
}

/// Whether every prepared call stands at its index, under its own key.
pub open spec fn are_keyed(prepared: Seq<PreparedToolCall>, key: RoundKey) -> bool {
    forall|i: int|
        0 <= i < prepared.len() ==> {
            &&& (#[trigger] prepared[i]).index == i
            &&& prepared[i].operation_key@ == operation_keys::tool_result_key(
                key.loop_id,
                key.round as nat,
                i as nat,
                prepared[i].call@.name,
            )
            &&& prepared[i].call@.id is Some
        }
}

impl RoundOpening {
    /// The calls that are ready, with the one that waits.
    pub open spec fn ready(self) -> Seq<ToolCall> {
        match self.waiting {
            Some(item) => ready_calls(self.prepared@).push(item.call@),
            None => ready_calls(self.prepared@),
        }
    }

    /// Whether all calls are prepared.
    pub open spec fn is_ready(self) -> bool {
        &&& self.waiting is None
        &&& self.prepared@.len() == self.pending@.len()
    }

    /// Whether the calls are prepared in order and keyed.
    pub open spec fn well_formed(self) -> bool {
        &&& self.ready().len() <= self.pending@.len()
        &&& are_keyed(self.prepared@, self.key)
        &&& self.waiting matches Some(item) ==> {
            &&& item.operation_key@ == operation_keys::tool_result_key(
                self.key.loop_id,
                self.key.round as nat,
                self.prepared@.len(),
                item.call@.name,
            )
            &&& item.call@.id is Some
        }
    }

    /// Whether the calls that are ready are those that the pending ones amount
    /// to, where the turn had used these correlation ids before.
    pub open spec fn prepares(
        self,
        tools: ToolsConfig,
        used: Seq<Seq<char>>,
    ) -> bool {
        &&& tool_round::prepared_calls(
            runner::calls_view(self.pending@).take(self.ready().len() as int),
            self.key.profile,
            tools,
            self.key.session_id,
            self.key.loop_id,
            self.key.round as nat,
            used,
        ) == Ok::<Seq<ToolCall>, Seq<char>>(self.ready())
        &&& text::texts(self.used@) == used + tool_round::ids_of(self.ready())
    }

    /// Opens the next round of a state.
    pub fn open(
        state: &ExecutionState,
        config: &EngineConfig,
        profile: ExecutionProfile,
    ) -> (result: Result<RoundOpening>)
        ensures
            ({
                let count = state@.pending_tool_calls.len();
                let limit = tool_round::call_limit(config.runtime.max_tool_calls_per_round as nat);
                if count > limit {
                    result is Err && error::is_tool(
                        result->Err_0,
                        "checkpoint contains "@ + text::decimal(count)
                            + " tool calls, exceeding max_tool_calls_per_round="@ + text::decimal(
                            limit,
                        ),
                    )
                } else {
                    &&& result is Ok
                    &&& result->Ok_0.key == (RoundKey {
                        session_id: state.session_id,
                        loop_id: state.loop_id,
                        round: tool_round::next_round(state.tool_rounds_completed),
                        profile,
                    })
                    &&& runner::calls_view(result->Ok_0.pending@) == state@.pending_tool_calls
                    &&& result->Ok_0.prepared@.len() == 0
                    &&& result->Ok_0.waiting is None
                    &&& result->Ok_0.well_formed()
                    &&& result->Ok_0.prepares(
                        config.tools,
                        tool_round::used_ids(state@.turn_messages),
                    )
                }
            }),
    {
        let round: u32 = match open_round(state, config) {
            Ok(round) => round,
            Err(failure) => return Err(failure),
        };
        let opening = RoundOpening {
            key: RoundKey {
                session_id: state.session_id,
                loop_id: state.loop_id,
                round,
                profile,
            },
            pending: clone_calls(state.pending_tool_calls.as_slice()),
            used: used_call_ids(state.turn_messages.as_slice()),
            prepared: Vec::new(),
            waiting: None,
        };
        proof {
            assert(opening.ready() =~= Seq::<ToolCall>::empty());
            assert(runner::calls_view(opening.pending@).take(0) =~= Seq::<ToolCall>::empty());
            let used = tool_round::used_ids(state@.turn_messages);
            assert(used + tool_round::ids_of(opening.ready()) =~= used);
        }
        Ok(opening)
    }

    /// Prepares the next call, which then waits to be taken in. There is none
    /// where all calls are prepared.
    pub fn next_call(&mut self, config: &EngineConfig, cancelled: bool) -> (result: Result<bool>)
        requires
            old(self).well_formed(),
            old(self).waiting is None,
        ensures
            final(self).key == old(self).key,
            final(self).pending@ == old(self).pending@,
            final(self).prepared@ == old(self).prepared@,
            final(self).well_formed(),
            if old(self).is_ready() {
                result == Ok::<bool, EngineError>(false) && *final(self) == *old(self)
            } else if cancelled {
                &&& result == Err::<bool, EngineError>(EngineError::Cancelled)
                &&& final(self).waiting is None
                &&& final(self).used@ == old(self).used@
            } else {
                let index = old(self).prepared@.len();
                match tool_round::prepared_call(
                    old(self).pending@[index as int]@,
                    old(self).key.profile,
                    config.tools,
                    old(self).key.session_id,
                    old(self).key.loop_id,
                    old(self).key.round as nat,
                    index,
                    text::texts(old(self).used@),
                ) {
                    Err(message) => {
                        &&& result is Err
                        &&& error::is_tool(result->Err_0, message)
                        &&& final(self).waiting is None
                        &&& final(self).used@ == old(self).used@
                    },
                    Ok(ready) => {
                        &&& result == Ok::<bool, EngineError>(true)
                        &&& final(self).waiting is Some
                        &&& final(self).waiting->0.call@ == ready
                        &&& text::texts(final(self).used@) == text::texts(old(self).used@).push(
                            ready.id->0,
                        )
                    },
                }
            },
            forall|used: Seq<Seq<char>>|
                old(self).prepares(config.tools, used) ==> #[trigger] final(self).prepares(
                    config.tools,
                    used,
                ),
    {
        let index: usize = self.prepared.len();
        assert(ready_calls(self.prepared@).len() == index);
        if index >= self.pending.len() {
            return Ok(false);
        }
        let ghost before = *self;
        let call = match prepare_round_call(
            self.pending[index].clone(),
            self.key.profile,
            &config.tools,
            self.key.session_id,
            self.key.loop_id,
            self.key.round,
            index,
            &mut self.used,
            cancelled,
        ) {
            Ok(call) => call,
            Err(failure) => return Err(failure),
        };
        let operation_key = tool_result_operation_key(
            self.key.loop_id,
            self.key.round,
            index,
            call.name.as_str(),
        );
        let ghost ready = call@;
        self.waiting = Some(WaitingCall { call, operation_key });
        proof {
            let earlier = before.ready();
            assert(self.ready() =~= earlier.push(ready));
            let pending = runner::calls_view(self.pending@);
            let part = pending.take(self.ready().len() as int);
            assert(part.drop_last() =~= pending.take(earlier.len() as int));
            assert(part.last() == self.pending@[index as int]@);
            assert(self.ready().drop_last() =~= earlier);
            assert forall|used: Seq<Seq<char>>| before.prepares(
                config.tools,
                used,
            ) implies #[trigger] self.prepares(config.tools, used) by {
                assert(tool_round::ids_of(self.ready()) == tool_round::ids_of(earlier).push(
                    ready.id->0,
                ));
                assert(used + tool_round::ids_of(self.ready()) =~= (used + tool_round::ids_of(
                    earlier,
                )).push(ready.id->0));
            }
        }
        Ok(true)
    }

    /// Whether records of the round are kept here, so that the one of a call
    /// is looked up before the call runs.
    pub fn keeps_records(&self) -> (result: bool)
        ensures
            result == (self.key.profile == ExecutionProfile::MemoryAware),
    {
        self.key.profile.uses_local_memory()
    }

    /// Takes in the call that waits, with its kind and with the record that an
    /// earlier attempt left. Rounds whose records are kept elsewhere take none.
    pub fn take_in(&mut self, execution_kind: ToolExecutionKind, found: Option<RawNode>)
        requires
            old(self).well_formed(),
            old(self).waiting is Some,
        ensures
            final(self).key == old(self).key,
            final(self).pending@ == old(self).pending@,
            final(self).used@ == old(self).used@,
            final(self).waiting is None,
            final(self).well_formed(),
            final(self).ready() == old(self).ready(),
            final(self).prepared@ == old(self).prepared@.push(final(self).prepared@.last()),
            ({
                let last = final(self).prepared@.last();
                &&& last.call == old(self).waiting->0.call
                &&& last.operation_key == old(self).waiting->0.operation_key
                &&& last.execution_kind == execution_kind
                &&& last.cached == if old(self).key.profile == ExecutionProfile::MemoryAware {
                    found
                } else {
                    None
                }
            }),
            forall|tools: ToolsConfig, used: Seq<Seq<char>>|
                old(self).prepares(tools, used) ==> #[trigger] final(self).prepares(tools, used),
    {
        let ghost before = *self;
        let cached = if self.keeps_records() {
            found
        } else {
            None
        };
        if let Some(item) = self.waiting.take() {
            let ghost call = item.call@;
            self.prepared.push(
                PreparedToolCall {
                    index: self.prepared.len(),
                    execution_kind,
                    call: item.call,
                    operation_key: item.operation_key,
                    cached,
                },
            );
            proof {
                assert(ready_calls(self.prepared@) =~= ready_calls(before.prepared@).push(call));
                assert(self.ready() =~= before.ready());
            }
        }
    }

    /// Lays out the transcript of the round. No call may run before that.
    pub fn plan<E: TokenEstimator + ?Sized>(
        self,
        estimator: &E,
        state: &ExecutionState,
        config: &EngineConfig,
    ) -> (result: Result<RoundRun>)
        requires
            self.well_formed(),
            self.is_ready(),
        ensures
            match tool_round::planned(
                estimator,
                state@.turn_messages,
                last_words(state@),
                self.ready(),
                config.context_budget.reserve_tools as nat,
            ) {
                Err(message) => result is Err && error::is_configuration(result->Err_0, message),
                Ok(plan) => {
                    &&& result is Ok
                    &&& result->Ok_0.well_formed()
                    &&& result->Ok_0.key == self.key
                    &&& result->Ok_0.prepared == self.prepared
                    &&& result->Ok_0.plan@ == plan
                    &&& result->Ok_0.next == 0
                    &&& result->Ok_0.terminal is None
                    &&& forall|i: int|
                        0 <= i < result->Ok_0.completed@.len() ==> (
                        #[trigger] result->Ok_0.completed@[i]) is None
                },
            },
    {
        let calls = prepared_requests(self.prepared.as_slice());
        let said: String = match &state.latest_model_output {
            Some(output) => match &output.assistant_message {
                Some(message) => message.clone(),
                None => String::new(),
            },
            None => String::new(),
        };
        assert(said@ =~= last_words(state@));
        proof {
            assert(runner::calls_view(calls@) =~= self.ready());
            assert forall|i: int| 0 <= i < calls@.len() implies (#[trigger] runner::calls_view(
                calls@,
            )[i]).id is Some by {
                assert(self.ready()[i] == self.prepared@[i].call@);
            }
        }
        let plan = match plan_round(
            estimator,
            state.turn_messages.as_slice(),
            said.as_str(),
            calls.as_slice(),
            config.context_budget.reserve_tools,
        ) {
            Ok(plan) => plan,
            Err(failure) => return Err(failure),
        };
        let phases = tool_phases(self.prepared.as_slice());
        let completed = no_results(self.prepared.len());
        Ok(
            RoundRun {
                key: self.key,
                prepared: self.prepared,
                plan,
                phases,
                next: 0,
                completed,
                terminal: None,
            },
        )
    }
}

/// What the model said when it made its calls.
pub open spec fn last_words(state: State) -> Seq<char> {
    match state.latest_model_output {
        Some(output) => match output.assistant_message {
            Some(message) => message,
            None => Seq::empty(),
        },
        None => Seq::empty(),
    }
}

fn prepared_requests(prepared: &[PreparedToolCall]) -> (calls: Vec<ToolCallRequest>)
    ensures
        runner::calls_view(calls@) == ready_calls(prepared@),
{
    let mut calls: Vec<ToolCallRequest> = Vec::new();
    let mut index: usize = 0;
    while index < prepared.len()
        invariant
            index <= prepared.len(),
            runner::calls_view(calls@) =~= ready_calls(prepared@).take(index as int),
        decreases prepared.len() - index,
    {
        let ghost before = runner::calls_view(calls@);
        let call = prepared[index].call.clone();
        calls.push(call);
        proof {
            assert(runner::calls_view(calls@) =~= before.push(call@));
            assert(ready_calls(prepared@)[index as int] == prepared@[index as int].call@);
        }
        index = index + 1;
    }
    assert(ready_calls(prepared@).take(prepared@.len() as int) =~= ready_calls(prepared@));
    calls
}

fn no_results(count: usize) -> (results: Vec<Option<Result<ToolCallResult>>>)
    ensures
        results@.len() == count,
        forall|i: int| 0 <= i < count ==> (#[trigger] results@[i]) is None,
{
    let mut results: Vec<Option<Result<ToolCallResult>>> = Vec::new();
    let mut index: usize = 0;
    while index < count
        invariant
            index <= count,
            results@.len() == index,
            forall|i: int| 0 <= i < index ==> (#[trigger] results@[i]) is None,
        decreases count - index,
    {
        results.push(None);
        index = index + 1;
    }
    results
}

/// A round whose calls run, phase by phase.
#[derive(Debug)]
pub struct RoundRun {
    pub key: RoundKey,
    pub prepared: Vec<PreparedToolCall>,
    pub plan: RoundPlan,
    pub phases: Vec<Vec<usize>>,
    /// How many phases are over.
    pub next: usize,
    pub completed: Vec<Option<Result<ToolCallResult>>>,
    /// The error that ended the round, if one did.
    pub terminal: Option<EngineError>,
}

impl RoundRun {
    /// Whether the phases are those of the calls and every call has its place.
    pub open spec fn well_formed(self) -> bool {
        &&& are_keyed(self.prepared@, self.key)
        &&& tool_phases::phases_view(self.phases@) == tool_phases::phases_from(
            tool_phases::slots(self.prepared@),
            0,
            Seq::empty(),
        )
        &&& self.next <= self.phases@.len()
        &&& self.completed@.len() == self.prepared@.len()
        &&& self.plan@.minimums.len() == self.prepared@.len()
        &&& self.terminal matches Some(failure) ==> tool_phases::is_terminal(failure)
    }

    /// Whether another phase is to run.
    pub open spec fn goes_on(self) -> bool {
        self.terminal is None && self.next < self.phases@.len()
    }

    /// The positions of the calls to run next, side by side. A call that may
    /// change something comes alone, a recorded one not at all, and after an
    /// error that ends the round there are none.
    pub fn next_phase(&self) -> (phase: Option<&Vec<usize>>)
        requires
            self.well_formed(),
        ensures
            phase is Some == self.goes_on(),
            phase matches Some(found) ==> {
                let slots = tool_phases::slots(self.prepared@);
                let positions = tool_phases::positions(found@);
                &&& positions == tool_phases::phases_from(slots, 0, Seq::empty())[self.next as int]
                &&& tool_phases::is_safe_phase(slots, positions)
                &&& forall|k: int|
                    0 <= k < positions.len() ==> 0 <= #[trigger] positions[k] < self.prepared@.len()
                        && self.prepared@[positions[k]].cached is None
            },
    {
        if self.terminal.is_some() || self.next >= self.phases.len() {
            return None;
        }
        let found = &self.phases[self.next];
        proof {
            let slots = tool_phases::slots(self.prepared@);
            let phases = tool_phases::phases_from(slots, 0, Seq::empty());
            let positions = tool_phases::positions(found@);
            assert(tool_phases::phases_view(self.phases@)[self.next as int] == positions);
            tool_phases::side_effects_run_alone(slots, self.next as int);
            assert forall|k: int| 0 <= k < positions.len() implies 0 <= #[trigger] positions[k]
                < self.prepared@.len() && self.prepared@[positions[k]].cached is None by {
                tool_phases::phases_hold_running_calls(slots, self.next as int, k);
                assert(slots[positions[k]] == tool_phases::slot(self.prepared@[positions[k]]));
            }
        }
        Some(found)
    }

    /// Takes the outcome of a call that ran. The first outcome that ends the
    /// round is kept as the error of the round.
    pub fn complete_call(&mut self, index: usize, outcome: TimedToolOutcome, timeout: Duration)
        requires
            old(self).well_formed(),
            timeout.well_formed(),
            index < old(self).prepared@.len(),
        ensures
            final(self).well_formed(),
            final(self).key == old(self).key,
            final(self).prepared == old(self).prepared,
            final(self).plan == old(self).plan,
            final(self).phases == old(self).phases,
            final(self).next == old(self).next,
            ({
                let given = final(self).completed@[index as int];
                &&& final(self).completed@ == old(self).completed@.update(index as int, given)
                &&& given is Some
                &&& tool_phases::is_outcome(
                    old(self).prepared@[index as int],
                    outcome,
                    timeout,
                    given->0,
                )
                &&& match old(self).terminal {
                    Some(_) => final(self).terminal == old(self).terminal,
                    None => tool_phases::is_ending(given->0, final(self).terminal),
                }
            }),
    {
        let result = tool_outcome(&self.prepared[index], outcome, timeout);
        if self.terminal.is_none() {
            self.terminal = round_ending(&result);
        }
        self.completed.set(index, Some(result));
    }

    /// Goes on to the next phase.
    pub fn end_phase(&mut self)
        requires
            old(self).well_formed(),
            old(self).next < old(self).phases@.len(),
        ensures
            final(self).well_formed(),
            *final(self) == (RoundRun { next: (old(self).next + 1) as usize, ..*old(self) }),
    {
        if self.next < self.phases.len() {
            self.next = self.next + 1;
        }
    }

    /// Turns to what the calls returned.
    pub fn into_returns(self) -> (closing: RoundReturns)
        requires
            self.well_formed(),
        ensures
            closing.well_formed(),
            closing.key == self.key,
            closing.prepared == self.prepared,
            closing.plan == self.plan,
            closing.completed == self.completed,
            closing.terminal == self.terminal,
            closing.extra == self.plan.result_extra_tokens,
            closing.shown@.len() == 0,
            closing.stored@.len() == 0,
            closing.waiting is None,
    {
        RoundReturns {
            key: self.key,
            prepared: self.prepared,
            completed: self.completed,
            terminal: self.terminal,
            extra: self.plan.result_extra_tokens,
            plan: self.plan,
            shown: Vec::new(),
            waiting: None,
            stored: Ghost(Seq::empty()),
        }
    }
}

/// A round that ran to its end has a result for every call: one that is recorded
/// or one that came back.
pub proof fn finished_rounds_miss_nothing(run: RoundRun, i: int)
    requires
        run.well_formed(),
        run.next == run.phases@.len(),
        forall|p: int, k: int|
            0 <= p < run.next && 0 <= k < run.phases@[p]@.len() ==> run.completed@[
                #[trigger] run.phases@[p]@[k] as int
            ] is Some,
        0 <= i < run.prepared@.len(),
    ensures
        run.prepared@[i].cached is Some || run.completed@[i] is Some,
{
    let slots = tool_phases::slots(run.prepared@);
    let phases = tool_phases::phases_from(slots, 0, Seq::empty());
    assert(slots[i] == tool_phases::slot(run.prepared@[i]));
    if run.prepared@[i].cached is None {
        tool_phases::running_calls_have_a_phase(slots, i);
        let (p, k) = choose|p: int, k: int|
            0 <= p < phases.len() && 0 <= k < phases[p].len() && #[trigger] phases[p][k] == i;
        assert(tool_phases::phases_view(run.phases@)[p] == tool_phases::positions(
            run.phases@[p]@,
        ));
        assert(tool_phases::positions(run.phases@[p]@)[k] == run.phases@[p]@[k]);
        assert(run.completed@[run.phases@[p]@[k] as int] is Some);
    }
}

/// What the model is shown of the first results of a round, and what they leave
/// of the common allowance.
pub open spec fn shown_so_far<E: TokenEstimator + ?Sized>(
    estimator: &E,
    minimums: Seq<nat>,
    stored: Seq<ToolResult>,
    count: nat,
    extra: nat,
) -> (Seq<ToolResult>, nat)
    decreases stored.len(),
{
    if stored.len() == 0 {
        (Seq::empty(), extra)
    } else {
        let position = stored.len() - 1;
        let earlier = shown_so_far(estimator, minimums, stored.drop_last(), count, extra);
        let shown = tool_results::shown_result(
            estimator,
            stored.last(),
            earlier.1,
            (count - position) as nat,
        );
        (
            earlier.0.push(shown),
            tool_results::extra_left(estimator, shown, minimums[position], earlier.1),
        )
    }
}

proof fn shown_first<E: TokenEstimator + ?Sized>(
    estimator: &E,
    minimums: Seq<nat>,
    stored: Seq<ToolResult>,
    count: nat,
    extra: nat,
)
    requires
        0 < stored.len() <= count,
        stored.len() <= minimums.len(),
    ensures
        ({
            let shown = tool_results::shown_result(estimator, stored[0], extra, count);
            let left = tool_results::extra_left(estimator, shown, minimums[0], extra);
            let rest = shown_so_far(
                estimator,
                minimums.drop_first(),
                stored.drop_first(),
                (count - 1) as nat,
                left,
            );
            let all = shown_so_far(estimator, minimums, stored, count, extra);
            all.0 == seq![shown] + rest.0 && all.1 == rest.1
        }),
    decreases stored.len(),
{
    let shown = tool_results::shown_result(estimator, stored[0], extra, count);
    let left = tool_results::extra_left(estimator, shown, minimums[0], extra);
    let none = Seq::<ToolResult>::empty();
    if stored.len() == 1 {
        assert(stored.drop_last() =~= none);
        assert(stored.drop_first() =~= none);
        assert(shown_so_far(estimator, minimums, none, count, extra) == (none, extra));
        assert(shown_so_far(
            estimator,
            minimums.drop_first(),
            none,
            (count - 1) as nat,
            left,
        ) == (none, left));
        assert(none.push(shown) =~= seq![shown] + none);
    } else {
        shown_first(estimator, minimums, stored.drop_last(), count, extra);
        assert(stored.drop_last().drop_first() =~= stored.drop_first().drop_last());
        assert(stored.drop_first().last() == stored.last());
        assert(minimums.drop_first()[stored.len() - 2] == minimums[stored.len() - 1]);
        let rest = shown_so_far(
            estimator,
            minimums.drop_first(),
            stored.drop_first(),
            (count - 1) as nat,
            left,
        );
        let all = shown_so_far(estimator, minimums, stored, count, extra);
        assert(all.0 =~= seq![shown] + rest.0);
    }
}

/// Shown one after the other, results are shown as those of a whole round.
proof fn shown_in_turn<E: TokenEstimator + ?Sized>(
    estimator: &E,
    minimums: Seq<nat>,
    stored: Seq<ToolResult>,
    extra: nat,
)
    requires
        stored.len() == minimums.len(),
    ensures
        shown_so_far(estimator, minimums, stored, stored.len(), extra).0
            == tool_results::shown_results(estimator, minimums, stored, extra),
    decreases stored.len(),
{
    if stored.len() > 0 {
        let shown = tool_results::shown_result(estimator, stored[0], extra, stored.len());
        let left = tool_results::extra_left(estimator, shown, minimums[0], extra);
        shown_first(estimator, minimums, stored, stored.len(), extra);
        shown_in_turn(estimator, minimums.drop_first(), stored.drop_first(), left);
    }
}

/// What is to be kept of a result.
#[derive(Debug)]
pub enum Keeping {
    /// An earlier attempt kept this record.
    Kept(RawNode),
    /// This record is to be kept.
    Keep(RawNode),
    /// Records are kept elsewhere.
    Nothing,
}

/// Whether this is to be kept of a result: its full record, once, where records
/// are kept here.
pub open spec fn is_keeping(
    key: RoundKey,
    prepared: PreparedToolCall,
    stored: ToolResult,
    keeping: Keeping,
) -> bool {
    match prepared.cached {
        Some(record) => keeping matches Keeping::Kept(node) && node@ == record@,
        None => match key.profile {
            ExecutionProfile::MemoryAware => keeping matches Keeping::Keep(node) && node@
                == Raw::fresh(
                node.id,
                node.timestamp,
                RawNodeKind::ToolResult,
                Some(key.session_id),
                Some(key.loop_id),
                tool_results::tool_source(stored.name),
                Content::Json(stored.encoded()),
                Float32 { bits: tool_results::TOOL_RESULT_IMPORTANCE_BITS },
                seq!["tool"@],
            ).keyed(prepared.operation_key@),
            ExecutionProfile::ExternalContext => keeping is Nothing,
        },
    }
}

/// A round whose calls have run and whose results are recorded and shown, in
/// the order of the calls.
pub struct RoundReturns {
    pub key: RoundKey,
    pub prepared: Vec<PreparedToolCall>,
    pub plan: RoundPlan,
    pub completed: Vec<Option<Result<ToolCallResult>>>,
    pub terminal: Option<EngineError>,
    /// What is left of the common allowance of the results.
    pub extra: usize,
    /// What the model is shown.
    pub shown: Vec<ToolCallResult>,
    /// What the model is shown of the result that waits for its record.
    pub waiting: Option<ToolCallResult>,
    /// The results as they are stored.
    pub stored: Ghost<Seq<ToolResult>>,
}

impl RoundReturns {
    /// What the model is shown, with the result that waits.
    pub open spec fn all_shown(self) -> Seq<ToolResult> {
        match self.waiting {
            Some(item) => executor::results_view(self.shown@).push(item@),
            None => executor::results_view(self.shown@),
        }
    }

    /// Whether every result answers the call at its place.
    pub open spec fn well_formed(self) -> bool {
        &&& are_keyed(self.prepared@, self.key)
        &&& self.completed@.len() == self.prepared@.len()
        &&& self.plan@.minimums.len() == self.prepared@.len()
        &&& self.all_shown().len() == self.stored@.len()
        &&& self.stored@.len() <= self.prepared@.len()
        &&& forall|i: int|
            0 <= i < self.stored@.len() ==> (#[trigger] self.stored@[i]).tool_call_id
                == self.prepared@[i].call@.id
    }

    /// Whether the results are shown as the plan of the round allows.
    pub open spec fn shows<E: TokenEstimator + ?Sized>(self, estimator: &E) -> bool {
        shown_so_far(
            estimator,
            self.plan@.minimums,
            self.stored@,
            self.prepared@.len(),
            self.plan@.extra,
        ) == (self.all_shown(), self.extra as nat)
    }

    /// Whether all results are recorded and shown.
    pub open spec fn is_over(self) -> bool {
        self.waiting is None && self.shown@.len() == self.prepared@.len()
    }

    /// Whether a result of the round is the one at its place.
    pub open spec fn is_next(self, found: Result<ToolCallResult>) -> bool {
        let index = self.shown@.len() as int;
        tool_results::is_return(
            self.prepared@[index],
            self.completed@[index],
            self.terminal,
            found,
        )
    }

    /// Takes the next result: bounds it for the record, bounds it again for the
    /// model, and says what is to be kept of it. The result then waits to be
    /// noted. There is none where all are noted.
    pub fn next_result<E: TokenEstimator + ?Sized>(
        &mut self,
        estimator: &E,
        config: &EngineConfig,
    ) -> (result: Result<Option<Keeping>>)
        requires
            old(self).well_formed(),
            old(self).waiting is None,
        ensures
            final(self).key == old(self).key,
            final(self).prepared == old(self).prepared,
            final(self).plan == old(self).plan,
            final(self).shown == old(self).shown,
            old(self).is_over() ==> result == Ok::<Option<Keeping>, EngineError>(None)
                && *final(self) == *old(self),
            !old(self).is_over() ==> exists|found: Result<ToolCallResult>| #[trigger]
                old(self).is_next(found) && old(self).is_taken(
                    estimator,
                    config.tools.max_tool_result_bytes as nat,
                    found,
                    *final(self),
                    result,
                ),
            result is Ok ==> final(self).well_formed(),
            result is Ok ==> final(self).terminal == old(self).terminal,
            result is Ok && old(self).shows(estimator) ==> final(self).shows(estimator),
    {
        let index: usize = self.shown.len();
        let count: usize = self.prepared.len();
        if index >= count {
            return Ok(None);
        }
        let ghost before = *self;
        let given = self.completed[index].take();
        let ended = if given.is_none() && self.prepared[index].cached.is_none() {
            self.terminal.take()
        } else {
            None
        };
        let mut found = match returned_result(&self.prepared[index], given, ended) {
            Ok(found) => found,
            Err(failure) => {
                assert(before.is_next(Err(failure)));
                return Err(failure);
            },
        };
        let ghost returned = found;
        assert(before.is_next(Ok(returned)));
        let max_bytes: usize = config.tools.max_tool_result_bytes;
        match bound_tool_result_for_storage(&mut found, max_bytes) {
            Ok(()) => {},
            Err(failure) => return Err(failure),
        }
        let ghost stored = found@;
        let keeping = match &self.prepared[index].cached {
            Some(record) => Keeping::Kept(record.clone()),
            None => if self.key.profile.uses_local_memory() {
                Keeping::Keep(
                    tool_result_node(
                        self.key.session_id,
                        self.key.loop_id,
                        &found,
                        &self.prepared[index].operation_key,
                    ),
                )
            } else {
                Keeping::Nothing
            },
        };
        let minimum: usize = self.plan.minimum_result_tokens[index];
        let shown = show_result(estimator, found, minimum, count - index, &mut self.extra);
        let ghost view = shown@;
        self.waiting = Some(shown);
        proof {
            self.stored@ = before.stored@.push(stored);
            assert(self.stored@.drop_last() =~= before.stored@);
            assert(self.all_shown() =~= before.all_shown().push(view));
            assert(self.plan@.minimums[index as int] == minimum);
        }
        Ok(Some(keeping))
    }

    /// Whether a result was taken: it is stored as far as it fits, and shown
    /// within its part of what is left.
    pub open spec fn is_taken<E: TokenEstimator + ?Sized>(
        self,
        estimator: &E,
        max_bytes: nat,
        found: Result<ToolCallResult>,
        after: RoundReturns,
        result: Result<Option<Keeping>>,
    ) -> bool {
        let index = self.shown@.len() as int;
        match found {
            Err(failure) => result == Err::<Option<Keeping>, EngineError>(failure),
            Ok(value) => if !tool_storage::is_storable(value@, max_bytes) {
                result is Err && error::is_configuration(
                    result->Err_0,
                    "max_tool_result_bytes="@ + text::decimal(max_bytes)
                        + " is too small for the validated tool result envelope"@,
                )
            } else {
                let stored = tool_storage::storable(value@, max_bytes);
                let shown = tool_results::shown_result(
                    estimator,
                    stored,
                    self.extra as nat,
                    (self.prepared@.len() - index) as nat,
                );
                &&& result matches Ok(Some(keeping)) && is_keeping(
                    self.key,
                    self.prepared@[index],
                    stored,
                    keeping,
                )
                &&& after.stored@ == self.stored@.push(stored)
                &&& after.waiting is Some
                &&& after.waiting->0@ == shown
                &&& after.extra == tool_results::extra_left(
                    estimator,
                    shown,
                    self.plan@.minimums[index],
                    self.extra as nat,
                )
                &&& after.completed@ == self.completed@.update(index, None)
            },
        }
    }

    /// Notes the result that waits, with the record that is kept of it.
    pub fn note_result(&mut self, state: &mut ExecutionState, record: Option<RawNode>)
        requires
            old(self).well_formed(),
            old(self).waiting is Some,
        ensures
            final(self).well_formed(),
            final(self).key == old(self).key,
            final(self).prepared == old(self).prepared,
            final(self).plan == old(self).plan,
            final(self).completed == old(self).completed,
            final(self).terminal == old(self).terminal,
            final(self).extra == old(self).extra,
            final(self).stored@ == old(self).stored@,
            final(self).waiting is None,
            final(self).all_shown() == old(self).all_shown(),
            final(state)@ == tool_results::with_result(
                old(state)@,
                match record {
                    Some(node) => Some(node@),
                    None => None,
                },
                old(self).waiting->0@,
            ),
    {
        let ghost before = *self;
        if let Some(shown) = self.waiting.take() {
            let ghost view = shown@;
            self.shown.push(shown.clone());
            record_tool_result(state, record, shown);
            assert(executor::results_view(self.shown@) =~= executor::results_view(
                before.shown@,
            ).push(view));
        }
    }

    /// Closes the round. Whatever the tools returned, a round that was planned
    /// for this transcript closes.
    pub fn close<E: TokenEstimator + ?Sized>(
        self,
        estimator: &E,
        state: &mut ExecutionState,
        config: &EngineConfig,
    ) -> (result: Result<()>)
        requires
            self.well_formed(),
            self.is_over(),
        ensures
            ({
                let reserve = config.context_budget.reserve_tools as nat;
                let transcript = tool_results::extended(
                    old(state)@.turn_messages,
                    self.plan@.assistant_turn,
                    self.all_shown(),
                );
                let tokens = estimator::messages_tokens(estimator, transcript);
                if tokens > reserve {
                    result is Err && error::is_configuration(
                        result->Err_0,
                        "bounded tool transcript used "@ + text::decimal(estimator::capped(tokens))
                            + " tokens, exceeding reserve_tools="@ + text::decimal(reserve) + " "@,
                    ) && final(state)@ == (State { turn_messages: transcript, ..old(state)@ })
                } else {
                    result is Ok && final(state)@ == tool_results::with_round(
                        old(state)@,
                        self.plan@.assistant_turn,
                        self.all_shown(),
                        self.key.round,
                    )
                }
            }),
            self.shows(estimator) ==> forall|said: Seq<char>|
                self.is_planned(
                    estimator,
                    old(state)@.turn_messages,
                    said,
                    config.context_budget.reserve_tools as nat,
                ) ==> result is Ok,
    {
        proof {
            if self.shows(estimator) {
                assert forall|said: Seq<char>| #[trigger]
                    self.is_planned(
                        estimator,
                        state@.turn_messages,
                        said,
                        config.context_budget.reserve_tools as nat,
                    ) implies estimator::messages_tokens(
                    estimator,
                    tool_results::extended(
                        state@.turn_messages,
                        self.plan@.assistant_turn,
                        self.all_shown(),
                    ),
                ) <= config.context_budget.reserve_tools by {
                    self.planned_returns_fit(
                        estimator,
                        state@.turn_messages,
                        said,
                        config.context_budget.reserve_tools as nat,
                    );
                }
            }
        }
        close_round(
            estimator,
            state,
            self.plan.assistant_turn,
            self.shown,
            self.key.round,
            config.context_budget.reserve_tools,
        )
    }

    /// Whether the plan is that of the calls for this transcript.
    pub open spec fn is_planned<E: TokenEstimator + ?Sized>(
        self,
        estimator: &E,
        transcript: Seq<Message>,
        said: Seq<char>,
        reserve: nat,
    ) -> bool {
        tool_round::planned(estimator, transcript, said, ready_calls(self.prepared@), reserve)
            == Ok::<tool_round::Plan, Seq<char>>(self.plan@)
    }

    proof fn planned_returns_fit<E: TokenEstimator + ?Sized>(
        self,
        estimator: &E,
        transcript: Seq<Message>,
        said: Seq<char>,
        reserve: nat,
    )
        requires
            self.well_formed(),
            self.is_over(),
            self.shows(estimator),
            reserve <= usize::MAX,
            self.is_planned(estimator, transcript, said, reserve),
        ensures
            estimator::messages_tokens(
                estimator,
                tool_results::extended(
                    transcript,
                    self.plan@.assistant_turn,
                    self.all_shown(),
                ),
            ) <= reserve,
    {
        let calls = ready_calls(self.prepared@);
        shown_in_turn(estimator, self.plan@.minimums, self.stored@, self.plan@.extra);
        assert forall|i: int| 0 <= i < calls.len() implies (#[trigger] calls[i]).id is Some
            && self.stored@[i].tool_call_id == calls[i].id by {
            assert(calls[i] == self.prepared@[i].call@);
        }
        tool_results::planned_rounds_fit(
            estimator,
            transcript,
            said,
            calls,
            reserve,
            self.stored@,
        );
    }
}

/// What is kept of a result is decided by where it comes from: the record of an
/// earlier attempt stays as it is, and a new result is recorded under the key of
/// its call where memories are kept, and nowhere else. The record holds the result
/// and belongs to the session and the loop of the round.
pub proof fn new_results_are_recorded(
    key: RoundKey,
    prepared: PreparedToolCall,
    stored: ToolResult,
    keeping: Keeping,
)
    requires
        is_keeping(key, prepared, stored, keeping),
    ensures
        prepared.cached matches Some(record) ==> (keeping matches Keeping::Kept(node) && node@
            == record@),
        prepared.cached is None && key.profile == ExecutionProfile::ExternalContext
            ==> keeping is Nothing,
        prepared.cached is None && key.profile == ExecutionProfile::MemoryAware ==> (
        keeping matches Keeping::Keep(node) && {
            &&& node@.operation_key == Some(prepared.operation_key@)
            &&& node@.kind == RawNodeKind::ToolResult
            &&& node@.session_id == Some(key.session_id)
            &&& node@.loop_id == Some(key.loop_id)
            &&& node@.content == Content::Json(stored.encoded())
            &&& node@.source == "tool:"@ + stored.name
            &&& node@.distillation_state == DistillationState::Undistilled
            &&& !node@.overflow.was_pushed_out_of_session
        }),
{
}

/// The words shown with the calls of a round are those that the model said last,
/// if it said any.
pub proof fn rounds_show_what_was_said_last(state: State)
    ensures
        state.latest_model_output matches Some(output) ==> (output.assistant_message matches Some(
            message,
        ) ==> last_words(state) == message),
        state.latest_model_output matches Some(output) ==> (output.assistant_message is None
            ==> last_words(state).len() == 0),
        state.latest_model_output is None ==> last_words(state).len() == 0,
{
}

/// Each result is taken in turn: it is stored as far as it may be, what is kept of
/// it is what is stored, and what is shown of it next is what fits beside what is
/// still to come. A failure that ends the round is passed on as it is.
pub proof fn results_are_taken_in_turn<E: TokenEstimator + ?Sized>(
    before: RoundReturns,
    estimator: &E,
    max_bytes: nat,
    found: Result<ToolCallResult>,
    after: RoundReturns,
    result: Result<Option<Keeping>>,
)
    requires
        before.is_taken(estimator, max_bytes, found, after, result),
    ensures
        found matches Err(failure) ==> result == Err::<Option<Keeping>, EngineError>(failure),
        found matches Ok(value) ==> (result matches Ok(kept) ==> {
            let index = before.shown@.len() as int;
            let stored = tool_storage::storable(value@, max_bytes);
            &&& kept is Some
            &&& is_keeping(before.key, before.prepared@[index], stored, kept->0)
            &&& after.stored@ == before.stored@.push(stored)
            &&& after.waiting is Some
            &&& after.waiting->0@.name == stored.name
            &&& after.waiting->0@.tool_call_id == stored.tool_call_id
            &&& after.waiting->0@.summary == stored.summary
            &&& estimator.tokens(stored.content) <= estimator::capped(
                estimator.tokens("{}"@) + before.extra as nat / (before.prepared@.len()
                    - index) as nat,
            ) ==> after.waiting->0@.content == stored.content
        }),
        found matches Ok(value) ==> (text::byte_count(value@.encoded()) <= max_bytes
            ==> result is Ok),
{
    if let Ok(value) = found {
        if let Ok(kept) = result {
            let index = before.shown@.len() as int;
            let stored = tool_storage::storable(value@, max_bytes);
            let allowance = estimator::capped(
                estimator.tokens("{}"@) + before.extra as nat / (before.prepared@.len()
                    - index) as nat,
            );
            tool_budget::content_that_fits_is_shown_whole(estimator, stored.content, allowance);
        }
    }
}

} // verus!
