//! In which order the calls of a round run, and what becomes of each.
use vstd::prelude::*;

use crate::domain::raw_node::RawNode;
use crate::error;
use crate::error::{EngineError, Result};
use crate::model::runner::ToolCallRequest;
use crate::time;
use crate::time::Duration;
use crate::tools::executor::{ToolCallResult, ToolExecutionKind};

verus! {

/// A call that is ready to run, or whose result is already recorded.
#[derive(Debug)]
pub struct PreparedToolCall {
    /// Where the call stands in its round.
    pub index: usize,
    pub execution_kind: ToolExecutionKind,
    pub call: ToolCallRequest,
    pub operation_key: String,
    /// The result that an earlier attempt recorded; such a call does not run.
    pub cached: Option<RawNode>,
}

/// What decides when a call runs.
#[derive(Debug, Clone, Copy, PartialEq, Eq, Structural)]
pub enum Slot {
    /// The result is recorded already.
    Cached,
    ReadOnly,
    SideEffecting,
}

/// What decides when a prepared call runs.
pub open spec fn slot(call: PreparedToolCall) -> Slot {
    if call.cached is Some {
        Slot::Cached
    } else if call.execution_kind == ToolExecutionKind::ReadOnly {
        Slot::ReadOnly
    } else {
        Slot::SideEffecting
    }
}

/// What decides when each prepared call runs.
pub open spec fn slots(calls: Seq<PreparedToolCall>) -> Seq<Slot> {
    calls.map_values(|call: PreparedToolCall| slot(call))
}

/// A phase, unless it is empty.
pub open spec fn closed_phase(open: Seq<int>) -> Seq<Seq<int>> {
    if open.len() == 0 {
        Seq::empty()
    } else {
        seq![open]
    }
}

/// The phases of the calls from a position on: adjacent read-only calls run
/// together, every other call runs alone, and recorded ones do not run.
pub open spec fn phases_from(slots: Seq<Slot>, start: int, open: Seq<int>) -> Seq<Seq<int>>
    decreases slots.len() - start,
{
    if start < 0 || start >= slots.len() {
        closed_phase(open)
    } else {
        match slots[start] {
            Slot::Cached => phases_from(slots, start + 1, open),
            Slot::ReadOnly => phases_from(slots, start + 1, open.push(start)),
            Slot::SideEffecting => closed_phase(open) + seq![seq![start]] + phases_from(
                slots,
                start + 1,
                Seq::empty(),
            ),
        }
    }
}

/// The positions as integers.
pub open spec fn positions(phase: Seq<usize>) -> Seq<int> {
    phase.map_values(|position: usize| position as int)
}

/// The phases as integers.
pub open spec fn phases_view(phases: Seq<Vec<usize>>) -> Seq<Seq<int>> {
    phases.map_values(|phase: Vec<usize>| positions(phase@))
}

fn push_phase(phases: &mut Vec<Vec<usize>>, phase: Vec<usize>)
    ensures
        phases_view(final(phases)@) == phases_view(old(phases)@).push(positions(phase@)),
{
    let ghost before = phases_view(phases@);
    phases.push(phase);
    assert(phases_view(phases@) =~= before.push(positions(phase@)));
}

/// The phases in which prepared calls run.
pub fn tool_phases(prepared: &[PreparedToolCall]) -> (phases: Vec<Vec<usize>>)
    ensures
        phases_view(phases@) == phases_from(slots(prepared@), 0, Seq::empty()),
{
    let ghost all = slots(prepared@);
    let mut phases: Vec<Vec<usize>> = Vec::new();
    let mut open: Vec<usize> = Vec::new();
    let mut index: usize = 0;
    assert(phases_view(phases@) =~= Seq::<Seq<int>>::empty());
    assert(positions(open@) =~= Seq::<int>::empty());
    assert(phases_view(phases@) + phases_from(all, 0, Seq::empty()) =~= phases_from(
        all,
        0,
        Seq::empty(),
    ));
    while index < prepared.len()
        invariant
            index <= prepared.len(),
            all == slots(prepared@),
            phases_view(phases@) + phases_from(all, index as int, positions(open@)) == phases_from(
                all,
                0,
                Seq::empty(),
            ),
        decreases prepared.len() - index,
    {
        let ghost done = phases_view(phases@);
        let ghost before = positions(open@);
        assert(all[index as int] == slot(prepared@[index as int]));
        if prepared[index].cached.is_some() {
        } else if prepared[index].execution_kind == ToolExecutionKind::ReadOnly {
            open.push(index);
            assert(positions(open@) =~= before.push(index as int));
        } else {
            let mut alone: Vec<usize> = Vec::new();
            alone.push(index);
            assert(positions(alone@) =~= seq![index as int]);
            if open.len() > 0 {
                push_phase(&mut phases, open);
                open = Vec::new();
            }
            push_phase(&mut phases, alone);
            proof {
                assert(positions(open@) =~= Seq::<int>::empty());
                let rest = phases_from(all, index + 1, Seq::empty());
                assert(phases_view(phases@) =~= done + closed_phase(before)
                    + seq![seq![index as int]]);
                assert(done + (closed_phase(before) + seq![seq![index as int]] + rest)
                    =~= phases_view(phases@) + rest);
            }
        }
        index = index + 1;
    }
    let ghost done = phases_view(phases@);
    let ghost before = positions(open@);
    if open.len() > 0 {
        push_phase(&mut phases, open);
    }
    assert(phases_view(phases@) =~= done + closed_phase(before));
    phases
}

/// The positions of the calls that run, in order.
pub open spec fn running(slots: Seq<Slot>, start: int) -> Seq<int>
    decreases slots.len() - start,
{
    if start < 0 || start >= slots.len() {
        Seq::empty()
    } else if slots[start] == Slot::Cached {
        running(slots, start + 1)
    } else {
        seq![start] + running(slots, start + 1)
    }
}

/// The phases in a row hold every call that runs, in the order in which the
/// model made them.
pub proof fn phases_keep_order(slots: Seq<Slot>)
    ensures
        phases_from(slots, 0, Seq::empty()).flatten() == running(slots, 0),
{
    phases_from_keep_order(slots, 0, Seq::empty());
    assert(Seq::<int>::empty() + running(slots, 0) =~= running(slots, 0));
}

proof fn flatten_first<T>(first: Seq<T>, rest: Seq<Seq<T>>)
    ensures
        (seq![first] + rest).flatten() == first + rest.flatten(),
{
    assert((seq![first] + rest).drop_first() =~= rest);
    assert((seq![first] + rest).first() == first);
}

proof fn phases_from_keep_order(slots: Seq<Slot>, start: int, open: Seq<int>)
    requires
        0 <= start,
    ensures
        phases_from(slots, start, open).flatten() == open + running(slots, start),
    decreases slots.len() - start,
{
    let none = Seq::<Seq<int>>::empty();
    assert(none.flatten() =~= Seq::<int>::empty());
    if start >= slots.len() {
        if open.len() > 0 {
            flatten_first(open, none);
            assert(seq![open] + none =~= seq![open]);
        }
        assert(phases_from(slots, start, open).flatten() =~= open + running(slots, start));
    } else {
        match slots[start] {
            Slot::Cached => {
                phases_from_keep_order(slots, start + 1, open);
            },
            Slot::ReadOnly => {
                phases_from_keep_order(slots, start + 1, open.push(start));
                assert(open.push(start) + running(slots, start + 1) =~= open + (seq![start]
                    + running(slots, start + 1)));
            },
            Slot::SideEffecting => {
                let rest = phases_from(slots, start + 1, Seq::empty());
                phases_from_keep_order(slots, start + 1, Seq::empty());
                assert(rest.flatten() =~= running(slots, start + 1));
                flatten_first(seq![start], rest);
                let tail = seq![seq![start]] + rest;
                if open.len() > 0 {
                    flatten_first(open, tail);
                    assert(closed_phase(open) + seq![seq![start]] + rest =~= seq![open] + tail);
                } else {
                    assert(closed_phase(open) + seq![seq![start]] + rest =~= tail);
                }
                assert(phases_from(slots, start, open).flatten() =~= open + running(
                    slots,
                    start,
                ));
            },
        }
    }
}

proof fn running_holds(slots: Seq<Slot>, start: int, i: int)
    requires
        0 <= start <= i < slots.len(),
        slots[i] != Slot::Cached,
    ensures
        running(slots, start).contains(i),
    decreases slots.len() - start,
{
    let all = running(slots, start);
    if start == i {
        assert(all[0] == i);
    } else {
        running_holds(slots, start + 1, i);
        let rest = running(slots, start + 1);
        let k = choose|k: int| 0 <= k < rest.len() && rest[k] == i;
        if slots[start] != Slot::Cached {
            assert(all[k + 1] == i);
        } else {
            assert(all[k] == i);
        }
    }
}

proof fn flatten_holds<T>(parts: Seq<Seq<T>>, item: T)
    requires
        parts.flatten().contains(item),
    ensures
        exists|p: int, k: int|
            0 <= p < parts.len() && 0 <= k < parts[p].len() && #[trigger] parts[p][k] == item,
    decreases parts.len(),
{
    if parts.len() > 0 {
        let all = parts.flatten();
        let first = parts.first();
        let rest = parts.drop_first();
        let i = choose|i: int| 0 <= i < all.len() && all[i] == item;
        if i < first.len() {
            assert(parts[0][i] == item);
        } else {
            assert(rest.flatten()[i - first.len()] == item);
            flatten_holds(rest, item);
            let (p, k) = choose|p: int, k: int|
                0 <= p < rest.len() && 0 <= k < rest[p].len() && #[trigger] rest[p][k] == item;
            assert(parts[p + 1][k] == item);
        }
    }
}

/// Every call that is not recorded already stands in a phase.
pub proof fn running_calls_have_a_phase(slots: Seq<Slot>, i: int)
    requires
        0 <= i < slots.len(),
        slots[i] != Slot::Cached,
    ensures
        exists|p: int, k: int|
            0 <= p < phases_from(slots, 0, Seq::empty()).len() && 0 <= k < phases_from(
                slots,
                0,
                Seq::empty(),
            )[p].len() && #[trigger] phases_from(slots, 0, Seq::empty())[p][k] == i,
{
    phases_keep_order(slots);
    running_holds(slots, 0, i);
    flatten_holds(phases_from(slots, 0, Seq::empty()), i);
}

/// A phase holds calls that run.
pub proof fn phases_hold_running_calls(slots: Seq<Slot>, p: int, k: int)
    requires
        0 <= p < phases_from(slots, 0, Seq::empty()).len(),
        0 <= k < phases_from(slots, 0, Seq::empty())[p].len(),
    ensures
        0 <= phases_from(slots, 0, Seq::empty())[p][k] < slots.len(),
        slots[phases_from(slots, 0, Seq::empty())[p][k]] != Slot::Cached,
{
    phases_from_hold_running_calls(slots, 0, Seq::empty(), p, k);
}

proof fn phases_from_hold_running_calls(
    slots: Seq<Slot>,
    start: int,
    open: Seq<int>,
    p: int,
    k: int,
)
    requires
        0 <= start,
        all_read_only(slots, open),
        0 <= p < phases_from(slots, start, open).len(),
        0 <= k < phases_from(slots, start, open)[p].len(),
    ensures
        0 <= phases_from(slots, start, open)[p][k] < slots.len(),
        slots[phases_from(slots, start, open)[p][k]] != Slot::Cached,
    decreases slots.len() - start,
{
    if start < slots.len() {
        match slots[start] {
            Slot::Cached => {
                phases_from_hold_running_calls(slots, start + 1, open, p, k);
            },
            Slot::ReadOnly => {
                assert(all_read_only(slots, open.push(start)));
                phases_from_hold_running_calls(slots, start + 1, open.push(start), p, k);
            },
            Slot::SideEffecting => {
                let head = closed_phase(open) + seq![seq![start]];
                let rest = phases_from(slots, start + 1, Seq::empty());
                if p >= head.len() {
                    assert((head + rest)[p] == rest[p - head.len()]);
                    phases_from_hold_running_calls(
                        slots,
                        start + 1,
                        Seq::empty(),
                        p - head.len(),
                        k,
                    );
                } else {
                    assert((head + rest)[p] == head[p]);
                }
            },
        }
    }
}

/// Whether a phase holds one call only, or read-only calls only.
pub open spec fn is_safe_phase(slots: Seq<Slot>, phase: Seq<int>) -> bool {
    ||| phase.len() == 1
    ||| all_read_only(slots, phase)
}

/// Whether positions are those of read-only calls.
pub open spec fn all_read_only(slots: Seq<Slot>, phase: Seq<int>) -> bool {
    forall|k: int|
        0 <= k < phase.len() ==> 0 <= #[trigger] phase[k] < slots.len() && slots[phase[k]]
            == Slot::ReadOnly
}

/// A call that may change something never runs beside another call.
pub proof fn side_effects_run_alone(slots: Seq<Slot>, p: int)
    requires
        0 <= p < phases_from(slots, 0, Seq::empty()).len(),
    ensures
        is_safe_phase(slots, phases_from(slots, 0, Seq::empty())[p]),
{
    phases_from_are_safe(slots, 0, Seq::empty(), p);
}

proof fn phases_from_are_safe(slots: Seq<Slot>, start: int, open: Seq<int>, p: int)
    requires
        0 <= start,
        all_read_only(slots, open),
        0 <= p < phases_from(slots, start, open).len(),
    ensures
        is_safe_phase(slots, phases_from(slots, start, open)[p]),
    decreases slots.len() - start,
{
    if start < slots.len() {
        match slots[start] {
            Slot::Cached => {
                phases_from_are_safe(slots, start + 1, open, p);
            },
            Slot::ReadOnly => {
                assert(all_read_only(slots, open.push(start)));
                phases_from_are_safe(slots, start + 1, open.push(start), p);
            },
            Slot::SideEffecting => {
                let head = closed_phase(open) + seq![seq![start]];
                let rest = phases_from(slots, start + 1, Seq::empty());
                if p >= head.len() {
                    assert((head + rest)[p] == rest[p - head.len()]);
                    phases_from_are_safe(slots, start + 1, Seq::empty(), p - head.len());
                } else {
                    assert((head + rest)[p] == head[p]);
                }
            },
        }
    }
}

/// How the execution of one call came out.
#[derive(Debug)]
pub enum TimedToolOutcome {
    Completed(Result<ToolCallResult>),
    TimedOut,
    Cancelled,
}

/// Whether a call that was cut off is reported as such: a read-only one failed,
/// but nobody knows what became of one that may have changed something.
pub open spec fn is_outcome(
    prepared: PreparedToolCall,
    outcome: TimedToolOutcome,
    timeout: Duration,
    result: Result<ToolCallResult>,
) -> bool {
    let name = prepared.call@.name;
    let key = prepared.operation_key@;
    let limit = time::duration_text(timeout.secs, timeout.nanos);
    match outcome {
        TimedToolOutcome::Completed(given) => result == given,
        TimedToolOutcome::TimedOut => result is Err && match prepared.execution_kind {
            ToolExecutionKind::SideEffecting => error::is_indeterminate(
                result->Err_0,
                key,
                "tool "@ + name + " exceeded the configured timeout of "@ + limit,
            ),
            ToolExecutionKind::ReadOnly => error::is_tool(
                result->Err_0,
                "tool "@ + name + " exceeded the configured tool_timeout of "@ + limit,
            ),
        },
        TimedToolOutcome::Cancelled => result is Err && match prepared.execution_kind {
            ToolExecutionKind::SideEffecting => error::is_indeterminate(
                result->Err_0,
                key,
                "tool "@ + name + " was cancelled after dispatch"@,
            ),
            ToolExecutionKind::ReadOnly => result->Err_0 == EngineError::Cancelled,
        },
    }
}

/// What the execution of a call amounts to.
pub fn tool_outcome(
    prepared: &PreparedToolCall,
    outcome: TimedToolOutcome,
    timeout: Duration,
) -> (result: Result<ToolCallResult>)
    requires
        timeout.well_formed(),
    ensures
        is_outcome(*prepared, outcome, timeout, result),
{
    let side_effecting = prepared.execution_kind == ToolExecutionKind::SideEffecting;
    match outcome {
        TimedToolOutcome::Completed(given) => given,
        TimedToolOutcome::TimedOut => {
            let limit = timeout.describe();
            if side_effecting {
                Err(
                    EngineError::ToolOutcomeIndeterminate {
                        idempotency_key: prepared.operation_key.clone(),
                        reason: "tool ".to_string().concat(prepared.call.name.as_str()).concat(
                            " exceeded the configured timeout of ",
                        ).concat(limit.as_str()),
                    },
                )
            } else {
                Err(
                    EngineError::Tool(
                        "tool ".to_string().concat(prepared.call.name.as_str()).concat(
                            " exceeded the configured tool_timeout of ",
                        ).concat(limit.as_str()),
                    ),
                )
            }
        },
        TimedToolOutcome::Cancelled => {
            if side_effecting {
                Err(
                    EngineError::ToolOutcomeIndeterminate {
                        idempotency_key: prepared.operation_key.clone(),
                        reason: "tool ".to_string().concat(prepared.call.name.as_str()).concat(
                            " was cancelled after dispatch",
                        ),
                    },
                )
            } else {
                Err(EngineError::Cancelled)
            }
        },
    }
}

/// A call that may have changed something and was cut off is never taken for
/// one that failed, so that recovery can ask for its outcome under its key.
pub proof fn cut_off_side_effects_stay_open(
    prepared: PreparedToolCall,
    outcome: TimedToolOutcome,
    timeout: Duration,
    result: Result<ToolCallResult>,
)
    requires
        is_outcome(prepared, outcome, timeout, result),
        prepared.execution_kind == ToolExecutionKind::SideEffecting,
        outcome !is Completed,
    ensures
        result is Err,
        result->Err_0 matches EngineError::ToolOutcomeIndeterminate { idempotency_key, .. }
            && idempotency_key@ == prepared.operation_key@,
{
}

/// Whether an error ends the round: the rest of the calls must not run.
pub open spec fn is_terminal(failure: EngineError) -> bool {
    failure is Cancelled || failure is ToolOutcomeIndeterminate
}

/// Whether two errors that end a round are the same.
pub open spec fn same_terminal(left: EngineError, right: EngineError) -> bool {
    match right {
        EngineError::Cancelled => left is Cancelled,
        EngineError::ToolOutcomeIndeterminate { idempotency_key, reason } =>
            error::is_indeterminate(left, idempotency_key@, reason@),
        _ => false,
    }
}

/// Whether a result ends the round with this error, or does not end it.
pub open spec fn is_ending(result: Result<ToolCallResult>, ending: Option<EngineError>) -> bool {
    match result {
        Err(failure) if is_terminal(failure) => ending matches Some(copy) && same_terminal(
            copy,
            failure,
        ),
        _ => ending is None,
    }
}

/// The error with which a result ends the round, if it does.
pub fn round_ending(result: &Result<ToolCallResult>) -> (ending: Option<EngineError>)
    ensures
        is_ending(*result, ending),
        ending matches Some(failure) ==> is_terminal(failure),
{
    match result {
        Err(EngineError::Cancelled) => Some(EngineError::Cancelled),
        Err(EngineError::ToolOutcomeIndeterminate { idempotency_key, reason }) => Some(
            EngineError::ToolOutcomeIndeterminate {
                idempotency_key: idempotency_key.clone(),
                reason: reason.clone(),
            },
        ),
        _ => None,
    }
}

/// A call runs unless it was recorded before, by itself where it has a side
/// effect, and side by side with others where it only reads.
pub proof fn recorded_calls_do_not_run(calls: Seq<PreparedToolCall>, i: int)
    requires
        0 <= i < calls.len(),
    ensures
        slots(calls).len() == calls.len(),
        slots(calls)[i] == Slot::Cached <==> calls[i].cached is Some,
        slots(calls)[i] == Slot::ReadOnly <==> calls[i].cached is None && calls[i].execution_kind
            == ToolExecutionKind::ReadOnly,
        slots(calls)[i] == Slot::SideEffecting <==> calls[i].cached is None
            && calls[i].execution_kind == ToolExecutionKind::SideEffecting,
{
}

/// The phases together are the calls that run, each once, in the order in which
/// they were made.
pub proof fn phases_run_every_call_once(slots: Seq<Slot>)
    ensures
        phases_from(slots, 0, Seq::empty()).flatten() == Seq::new(
            slots.len(),
            |i: int| i,
        ).filter(|i: int| slots[i] != Slot::Cached),
{
    phases_keep_order(slots);
    running_from_start(slots, slots.len() as int);
    assert(Seq::new(slots.len(), |i: int| i).take(slots.len() as int) =~= Seq::new(
        slots.len(),
        |i: int| i,
    ));
}

/// The calls that run among the first ones.
spec fn running_up_to(slots: Seq<Slot>, count: int) -> Seq<int> {
    Seq::new(slots.len(), |i: int| i).take(count).filter(|i: int| slots[i] != Slot::Cached)
}

proof fn running_is_filtered(slots: Seq<Slot>, count: int)
    requires
        0 <= count <= slots.len(),
    ensures
        running_up_to(slots, count) + running(slots, count) == running(slots, 0),
    decreases count,
{
    reveal(Seq::filter);
    let all = Seq::new(slots.len(), |i: int| i);
    if count == 0 {
        assert(all.take(0) =~= Seq::<int>::empty());
        assert(running_up_to(slots, 0) + running(slots, 0) =~= running(slots, 0));
    } else {
        running_is_filtered(slots, count - 1);
        assert(all.take(count).drop_last() =~= all.take(count - 1));
        assert(all.take(count).last() == count - 1);
        assert(running_up_to(slots, count) + running(slots, count) =~= running_up_to(
            slots,
            count - 1,
        ) + running(slots, count - 1));
    }
}

proof fn running_from_start(slots: Seq<Slot>, count: int)
    requires
        count == slots.len(),
    ensures
        running_up_to(slots, count) == running(slots, 0),
{
    running_is_filtered(slots, count);
    assert(running_up_to(slots, count) + running(slots, count) =~= running_up_to(slots, count));
}

/// Calls that only read are not kept waiting for each other: two of them with no
/// side effect between them run in the same phase.
pub proof fn reads_run_side_by_side(slots: Seq<Slot>, i: int, j: int)
    requires
        0 <= i < j < slots.len(),
        slots[i] == Slot::ReadOnly,
        slots[j] == Slot::ReadOnly,
        forall|k: int| i < k < j ==> #[trigger] slots[k] != Slot::SideEffecting,
    ensures
        exists|p: int|
            0 <= p < phases_from(slots, 0, Seq::empty()).len() && (#[trigger] phases_from(
                slots,
                0,
                Seq::empty(),
            )[p]).contains(i) && phases_from(slots, 0, Seq::empty())[p].contains(j),
{
    reads_meet(slots, 0, Seq::empty(), i, j);
}

proof fn open_phase_goes_on(slots: Seq<Slot>, start: int, open: Seq<int>)
    requires
        0 <= start <= slots.len(),
        open.len() > 0,
    ensures
        phases_from(slots, start, open).len() > 0,
        open.is_prefix_of(phases_from(slots, start, open)[0]),
    decreases slots.len() - start,
{
    if start < slots.len() {
        match slots[start] {
            Slot::Cached => open_phase_goes_on(slots, start + 1, open),
            Slot::ReadOnly => {
                open_phase_goes_on(slots, start + 1, open.push(start));
                let first = phases_from(slots, start, open)[0];
                assert(open.push(start).is_prefix_of(first));
                assert forall|k: int| 0 <= k < open.len() implies open[k] == first[k] by {
                    assert(open.push(start)[k] == first[k]);
                }
            },
            Slot::SideEffecting => {
                assert(phases_from(slots, start, open)[0] == open);
            },
        }
    } else {
        assert(phases_from(slots, start, open)[0] == open);
    }
}

proof fn open_phase_reaches(slots: Seq<Slot>, start: int, open: Seq<int>, j: int)
    requires
        0 <= start <= j < slots.len(),
        open.len() > 0,
        slots[j] == Slot::ReadOnly,
        forall|k: int| start <= k < j ==> #[trigger] slots[k] != Slot::SideEffecting,
    ensures
        phases_from(slots, start, open).len() > 0,
        phases_from(slots, start, open)[0].contains(j),
    decreases slots.len() - start,
{
    if start == j {
        open_phase_goes_on(slots, start + 1, open.push(start));
        let first = phases_from(slots, start, open)[0];
        let longer = open.push(start);
        assert(longer.is_prefix_of(first));
        assert(longer[longer.len() - 1] == first[longer.len() - 1]);
        assert(first[longer.len() - 1] == j);
    } else {
        match slots[start] {
            Slot::Cached => open_phase_reaches(slots, start + 1, open, j),
            Slot::ReadOnly => open_phase_reaches(slots, start + 1, open.push(start), j),
            Slot::SideEffecting => {},
        }
    }
}

proof fn reads_meet(slots: Seq<Slot>, start: int, open: Seq<int>, i: int, j: int)
    requires
        0 <= start <= i < j < slots.len(),
        slots[i] == Slot::ReadOnly,
        slots[j] == Slot::ReadOnly,
        forall|k: int| i < k < j ==> #[trigger] slots[k] != Slot::SideEffecting,
    ensures
        exists|p: int|
            0 <= p < phases_from(slots, start, open).len() && (#[trigger] phases_from(
                slots,
                start,
                open,
            )[p]).contains(i) && phases_from(slots, start, open)[p].contains(j),
    decreases slots.len() - start,
{
    let all = phases_from(slots, start, open);
    if start == i {
        let longer = open.push(i);
        open_phase_goes_on(slots, i + 1, longer);
        open_phase_reaches(slots, i + 1, longer, j);
        assert(longer[longer.len() - 1] == all[0][longer.len() - 1]);
        assert(all[0].contains(i) && all[0].contains(j));
    } else {
        match slots[start] {
            Slot::Cached => reads_meet(slots, start + 1, open, i, j),
            Slot::ReadOnly => reads_meet(slots, start + 1, open.push(start), i, j),
            Slot::SideEffecting => {
                reads_meet(slots, start + 1, Seq::empty(), i, j);
                let rest = phases_from(slots, start + 1, Seq::empty());
                let p = choose|p: int|
                    0 <= p < rest.len() && (#[trigger] rest[p]).contains(i) && rest[p].contains(j);
                let shift = closed_phase(open).len() + 1;
                assert(all[shift + p] == rest[p]);
            },
        }
    }
}

/// A call that completed is told as it is. One that ran out of time or was
/// cancelled is an error: where it had a side effect, one that says that nobody
/// knows its outcome, under its key. Only that and a cancellation end a round.
pub proof fn outcomes_are_told_as_they_are(
    prepared: PreparedToolCall,
    outcome: TimedToolOutcome,
    timeout: Duration,
    result: Result<ToolCallResult>,
    ending: Option<EngineError>,
)
    requires
        is_outcome(prepared, outcome, timeout, result),
        is_ending(result, ending),
    ensures
        outcome matches TimedToolOutcome::Completed(given) ==> result == given,
        outcome is TimedOut && prepared.execution_kind == ToolExecutionKind::ReadOnly ==> (
        result matches Err(failure) && failure is Tool),
        outcome is Cancelled && prepared.execution_kind == ToolExecutionKind::ReadOnly ==> (
        result matches Err(failure) && failure is Cancelled),
        outcome !is Completed && prepared.execution_kind == ToolExecutionKind::SideEffecting ==> (
        result matches Err(failure) && failure is ToolOutcomeIndeterminate),
        ending is Some <==> (result matches Err(failure) && (failure is Cancelled
            || failure is ToolOutcomeIndeterminate)),
        ending matches Some(failure) ==> (failure is Cancelled <==> result->Err_0 is Cancelled),
{
}

} // verus!
