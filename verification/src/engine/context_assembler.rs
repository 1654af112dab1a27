//! What of session, memory and tools goes into the prompt.
use std::sync::Arc;
use vstd::arithmetic::div_mod;
use vstd::arithmetic::power2;
use vstd::prelude::*;

use crate::config::{ContextBudgetConfig, EngineConfig};
use crate::domain::raw_node;
use crate::domain::raw_node::{Raw, RawNode};
use crate::engine::conversation;
use crate::engine::estimator;
use crate::engine::estimator::TokenEstimator;
use crate::float32;
use crate::float32::{scaled, Float32};
use crate::ids::RawNodeId;
use crate::memory::activation::{ActivatedMemory, Memory, RankedAbstract, RankedRaw};
use crate::model::runner::clone_texts;
use crate::order;
use crate::text;
use crate::tools::executor;
use crate::tools::executor::{ToolCallResult, ToolResult};

verus! {

/// Which raw nodes of the session are in the prompt and which fell out.
#[derive(Debug, PartialEq, Eq)]
pub struct SessionWindowDecision {
    pub included_raw_ids: Vec<RawNodeId>,
    pub pushed_out_raw_ids: Vec<RawNodeId>,
}

impl Default for SessionWindowDecision {
    fn default() -> (decision: Self)
        ensures
            decision.included_raw_ids@.len() == 0,
            decision.pushed_out_raw_ids@.len() == 0,
    {
        SessionWindowDecision { included_raw_ids: Vec::new(), pushed_out_raw_ids: Vec::new() }
    }
}

/// The parts of a prompt, apart from the conversation itself.
#[derive(Debug, PartialEq, Eq)]
pub struct AssembledContext {
    pub system_prompt: String,
    pub session_context: Vec<String>,
    pub memory_context: Vec<String>,
    pub tool_context: Vec<String>,
    pub session_window: SessionWindowDecision,
    pub total_estimated_tokens: usize,
}

/// An assembled context as a mathematical value.
#[verifier::ext_equal]
pub struct Context {
    pub system_prompt: Seq<char>,
    pub session_context: Seq<Seq<char>>,
    pub memory_context: Seq<Seq<char>>,
    pub tool_context: Seq<Seq<char>>,
    pub included: Seq<RawNodeId>,
    pub pushed_out: Seq<RawNodeId>,
    pub total_estimated_tokens: nat,
}

impl View for AssembledContext {
    type V = Context;

    open spec fn view(&self) -> Context {
        Context {
            system_prompt: self.system_prompt@,
            session_context: text::texts(self.session_context@),
            memory_context: text::texts(self.memory_context@),
            tool_context: text::texts(self.tool_context@),
            included: self.session_window.included_raw_ids@,
            pushed_out: self.session_window.pushed_out_raw_ids@,
            total_estimated_tokens: self.total_estimated_tokens as nat,
        }
    }
}

impl Clone for AssembledContext {
    fn clone(&self) -> (result: Self)
        ensures
            result@ == self@,
    {
        let included = self.session_window.included_raw_ids.clone();
        let pushed_out = self.session_window.pushed_out_raw_ids.clone();
        assert(included@ =~= self.session_window.included_raw_ids@);
        assert(pushed_out@ =~= self.session_window.pushed_out_raw_ids@);
        AssembledContext {
            system_prompt: self.system_prompt.clone(),
            session_context: clone_texts(self.session_context.as_slice()),
            memory_context: clone_texts(self.memory_context.as_slice()),
            tool_context: clone_texts(self.tool_context.as_slice()),
            session_window: SessionWindowDecision {
                included_raw_ids: included,
                pushed_out_raw_ids: pushed_out,
            },
            total_estimated_tokens: self.total_estimated_tokens,
        }
    }
}

/// The context that holds nothing but a system prompt.
pub open spec fn bare_context(system_prompt: Seq<char>) -> Context {
    Context {
        system_prompt,
        session_context: Seq::empty(),
        memory_context: Seq::empty(),
        tool_context: Seq::empty(),
        included: Seq::empty(),
        pushed_out: Seq::empty(),
        total_estimated_tokens: 0,
    }
}

impl AssembledContext {
    /// The context that holds nothing but a system prompt.
    pub fn with_system_prompt(system_prompt: String) -> (context: Self)
        ensures
            context@ == bare_context(system_prompt@),
    {
        let context = AssembledContext {
            system_prompt,
            session_context: Vec::new(),
            memory_context: Vec::new(),
            tool_context: Vec::new(),
            session_window: SessionWindowDecision::default(),
            total_estimated_tokens: 0,
        };
        proof {
            assert(context@.session_context =~= Seq::empty());
            assert(context@.memory_context =~= Seq::empty());
            assert(context@.tool_context =~= Seq::empty());
            assert(context@.included =~= Seq::empty());
            assert(context@.pushed_out =~= Seq::empty());
        }
        context
    }
}

/// Tokens of a list of lines.
pub open spec fn lines_tokens<E: TokenEstimator + ?Sized>(
    estimator: &E,
    lines: Seq<Seq<char>>,
) -> nat
    decreases lines.len(),
{
    if lines.len() == 0 {
        0
    } else {
        lines_tokens(estimator, lines.drop_last()) + estimator.tokens(lines.last())
    }
}

/// How many of the first lines stay within a budget.
pub open spec fn fitting_count<E: TokenEstimator + ?Sized>(
    estimator: &E,
    lines: Seq<Seq<char>>,
    budget: nat,
) -> nat
    decreases lines.len(),
{
    if lines.len() == 0 || estimator.tokens(lines[0]) > budget {
        0
    } else {
        1 + fitting_count(
            estimator,
            lines.drop_first(),
            (budget - estimator.tokens(lines[0])) as nat,
        )
    }
}

/// The first lines, as long as they stay within a budget.
pub open spec fn fitting<E: TokenEstimator + ?Sized>(
    estimator: &E,
    lines: Seq<Seq<char>>,
    budget: nat,
) -> Seq<Seq<char>> {
    lines.take(fitting_count(estimator, lines, budget) as int)
}

/// Where the session window starts: after the newest node with which the
/// nodes that follow it would exceed a budget.
pub open spec fn window_start<E: TokenEstimator + ?Sized>(
    estimator: &E,
    session: Seq<Raw>,
    budget: nat,
) -> nat
    decreases session.len(),
{
    if session.len() == 0 {
        0
    } else if estimator.tokens(session.last().context()) > budget {
        session.len()
    } else {
        window_start(
            estimator,
            session.drop_last(),
            (budget - estimator.tokens(session.last().context())) as nat,
        )
    }
}

/// How each raw node reads in a prompt.
pub open spec fn contexts(nodes: Seq<Raw>) -> Seq<Seq<char>> {
    nodes.map_values(|node: Raw| node.context())
}

/// The identifiers of raw nodes.
pub open spec fn raw_ids(nodes: Seq<Raw>) -> Seq<RawNodeId> {
    nodes.map_values(|node: Raw| node.id)
}

/// How an abstract memory reads in a prompt.
pub open spec fn abstract_line(memory: RankedAbstract) -> Seq<char> {
    "abstract: "@ + memory.node.context()
}

/// How a raw memory reads in a prompt.
pub open spec fn raw_line(memory: RankedRaw) -> Seq<char> {
    "raw: "@ + memory.node.context()
}

/// The lines of the abstract memories.
pub open spec fn abstract_lines(memory: Memory) -> Seq<Seq<char>> {
    memory.abstract_nodes.map_values(|entry: RankedAbstract| abstract_line(entry))
}

/// The lines of the raw memories.
pub open spec fn raw_lines(memory: Memory) -> Seq<Seq<char>> {
    memory.raw_nodes.map_values(|entry: RankedRaw| raw_line(entry))
}

/// The lines of memory: abstract ones first, then raw ones in what is left.
pub open spec fn memory_lines<E: TokenEstimator + ?Sized>(
    estimator: &E,
    memory: Memory,
    budget: nat,
) -> Seq<Seq<char>> {
    let chosen = fitting(estimator, abstract_lines(memory), budget);
    let rest = conversation::beyond(budget, lines_tokens(estimator, chosen));
    chosen + fitting(estimator, raw_lines(memory), rest)
}

/// The summaries of tool results.
pub open spec fn summaries(results: Seq<ToolResult>) -> Seq<Seq<char>> {
    results.map_values(|result: ToolResult| result.summary)
}

impl ContextBudgetConfig {
    /// Tokens of the session window.
    pub open spec fn session_budget(self) -> nat {
        float32::share(self.remaining(), self.session_ratio)
    }

    /// Tokens of the memories.
    pub open spec fn memory_budget(self) -> nat {
        conversation::beyond(self.remaining(), self.session_budget())
    }
}

/// The context that is assembled under a budget.
pub open spec fn assembled<E: TokenEstimator + ?Sized>(
    estimator: &E,
    budget: ContextBudgetConfig,
    system_prompt: Seq<char>,
    session: Seq<Raw>,
    memory: Memory,
    results: Seq<ToolResult>,
) -> Context {
    let start = window_start(estimator, session, budget.session_budget()) as int;
    let session_context = contexts(session.skip(start));
    let memory_context = memory_lines(estimator, memory, budget.memory_budget());
    let tool_context = fitting(estimator, summaries(results), budget.reserve_tools as nat);
    Context {
        system_prompt,
        session_context,
        memory_context,
        tool_context,
        included: raw_ids(session.skip(start)),
        pushed_out: raw_ids(session.take(start)),
        total_estimated_tokens: estimator::capped(
            estimator.tokens(system_prompt) + lines_tokens(estimator, session_context)
                + lines_tokens(estimator, memory_context) + lines_tokens(estimator, tool_context),
        ),
    }
}

/// Tokens of two lists of lines in a row add up.
pub proof fn lines_tokens_add<E: TokenEstimator + ?Sized>(
    estimator: &E,
    left: Seq<Seq<char>>,
    right: Seq<Seq<char>>,
)
    ensures
        lines_tokens(estimator, left + right) == lines_tokens(estimator, left) + lines_tokens(
            estimator,
            right,
        ),
    decreases right.len(),
{
    if right.len() == 0 {
        assert(left + right =~= left);
    } else {
        lines_tokens_add(estimator, left, right.drop_last());
        assert((left + right).drop_last() =~= left + right.drop_last());
    }
}

/// A list of one line has the tokens of that line, and no lines have none.
pub proof fn lines_tokens_one<E: TokenEstimator + ?Sized>(estimator: &E, line: Seq<char>)
    ensures
        lines_tokens(estimator, seq![line]) == estimator.tokens(line),
        lines_tokens(estimator, Seq::<Seq<char>>::empty()) == 0,
{
    assert(seq![line].drop_last() =~= Seq::<Seq<char>>::empty());
    reveal_with_fuel(lines_tokens, 2);
}

/// The lines that are taken stay within the budget.
proof fn fitting_lines_fit<E: TokenEstimator + ?Sized>(
    estimator: &E,
    lines: Seq<Seq<char>>,
    budget: nat,
)
    ensures
        fitting_count(estimator, lines, budget) <= lines.len(),
        lines_tokens(estimator, fitting(estimator, lines, budget)) <= budget,
    decreases lines.len(),
{
    if lines.len() == 0 || estimator.tokens(lines[0]) > budget {
        assert(fitting(estimator, lines, budget) =~= Seq::<Seq<char>>::empty());
    } else {
        let rest = (budget - estimator.tokens(lines[0])) as nat;
        fitting_lines_fit(estimator, lines.drop_first(), rest);
        assert(fitting(estimator, lines, budget) =~= seq![lines[0]] + fitting(
            estimator,
            lines.drop_first(),
            rest,
        ));
        lines_tokens_add(estimator, seq![lines[0]], fitting(estimator, lines.drop_first(), rest));
        lines_tokens_one(estimator, lines[0]);
    }
}

/// The session window stays within the budget.
proof fn session_window_fits<E: TokenEstimator + ?Sized>(
    estimator: &E,
    session: Seq<Raw>,
    budget: nat,
)
    ensures
        window_start(estimator, session, budget) <= session.len(),
        lines_tokens(
            estimator,
            contexts(session.skip(window_start(estimator, session, budget) as int)),
        ) <= budget,
    decreases session.len(),
{
    let start = window_start(estimator, session, budget);
    if session.len() == 0 || estimator.tokens(session.last().context()) > budget {
        assert(contexts(session.skip(start as int)) =~= Seq::<Seq<char>>::empty());
    } else {
        let rest = (budget - estimator.tokens(session.last().context())) as nat;
        session_window_fits(estimator, session.drop_last(), rest);
        let kept = contexts(session.skip(start as int));
        assert(kept.drop_last() =~= contexts(session.drop_last().skip(start as int)));
        assert(kept.last() == session.last().context());
    }
}

/// Assembles prompts with a token estimator.
pub struct ContextAssembler<E: TokenEstimator + ?Sized> {
    pub estimator: Arc<E>,
}

impl<E: TokenEstimator + ?Sized> ContextAssembler<E> {
    /// An assembler that estimates with the given estimator.
    pub fn new(estimator: Arc<E>) -> (assembler: Self)
        ensures
            assembler.estimator == estimator,
    {
        ContextAssembler { estimator }
    }

    /// Assembles a context: the newest nodes of the session, the memories and
    /// the tool summaries, each within its part of the budget.
    pub fn assemble(
        &self,
        budget: &ContextBudgetConfig,
        system_prompt: &str,
        session_raw: &[RawNode],
        activated_memory: &ActivatedMemory,
        tool_results: &[ToolCallResult],
    ) -> (context: AssembledContext)
        ensures
            context@ == assembled(
                &*self.estimator,
                *budget,
                system_prompt@,
                raw_node::raws(session_raw@),
                activated_memory@,
                executor::results_view(tool_results@),
            ),
    {
        let remaining: usize = budget.remaining_tokens();
        let session_budget: usize = scaled(remaining, &budget.session_ratio);
        let memory_budget: usize = remaining.saturating_sub(session_budget);
        let (session_context, session_window) = collect_session_context(
            &*self.estimator,
            session_raw,
            session_budget,
        );
        let memory_context = collect_memory_context(
            &*self.estimator,
            activated_memory,
            memory_budget,
        );
        let tool_context = collect_tool_context(
            &*self.estimator,
            tool_results,
            budget.reserve_tools,
        );
        let system_tokens: usize = self.estimator.estimate_text(system_prompt);
        let total: usize = add_lines(&*self.estimator, session_context.as_slice(), system_tokens);
        let total: usize = add_lines(&*self.estimator, memory_context.as_slice(), total);
        let total: usize = add_lines(&*self.estimator, tool_context.as_slice(), total);
        AssembledContext {
            system_prompt: system_prompt.to_string(),
            session_context,
            memory_context,
            tool_context,
            session_window,
            total_estimated_tokens: total,
        }
    }
}

fn add_lines<E: TokenEstimator + ?Sized>(estimator: &E, lines: &[String], start: usize) -> (total:
    usize)
    ensures
        total == estimator::capped(start as nat + lines_tokens(estimator, text::texts(lines@))),
{
    let ghost all = text::texts(lines@);
    let mut total: usize = start;
    let mut index: usize = 0;
    assert(all.take(0) =~= Seq::<Seq<char>>::empty());
    while index < lines.len()
        invariant
            index <= lines.len(),
            all == text::texts(lines@),
            total == estimator::capped(start as nat + lines_tokens(estimator, all.take(index as int))),
        decreases lines.len() - index,
    {
        total = total.saturating_add(estimator.estimate_text(lines[index].as_str()));
        proof {
            assert(all.take(index + 1).drop_last() =~= all.take(index as int));
            assert(all.take(index + 1).last() == lines@[index as int]@);
        }
        index = index + 1;
    }
    assert(all.take(all.len() as int) =~= all);
    total
}

/// Collects the newest nodes of a session that stay within a budget.
pub fn collect_session_context<E: TokenEstimator + ?Sized>(
    estimator: &E,
    session_raw: &[RawNode],
    budget: usize,
) -> (result: (Vec<String>, SessionWindowDecision))
    ensures
        ({
            let session = raw_node::raws(session_raw@);
            let start = window_start(estimator, session, budget as nat) as int;
            &&& text::texts(result.0@) == contexts(session.skip(start))
            &&& result.1.included_raw_ids@ == raw_ids(session.skip(start))
            &&& result.1.pushed_out_raw_ids@ == raw_ids(session.take(start))
        }),
{
    let ghost session = raw_node::raws(session_raw@);
    let ghost total = window_start(estimator, session, budget as nat);
    let mut rest: usize = budget;
    let mut start: usize = session_raw.len();
    assert(session.take(session.len() as int) =~= session);
    while start > 0
        invariant
            start <= session_raw.len(),
            session == raw_node::raws(session_raw@),
            window_start(estimator, session.take(start as int), rest as nat) == total,
        ensures
            start == total,
        decreases start,
    {
        let text = session_raw[start - 1].context_text();
        let estimated: usize = estimator.estimate_text(text.as_str());
        proof {
            assert(session.take(start as int).last() == session_raw@[start - 1]@);
            assert(session.take(start as int).drop_last() =~= session.take(start - 1));
        }
        if estimated > rest {
            break ;
        }
        rest = rest - estimated;
        start = start - 1;
    }
    proof {
        session_window_fits(estimator, session, budget as nat);
    }
    let mut pushed_out: Vec<RawNodeId> = Vec::new();
    let mut index: usize = 0;
    while index < start
        invariant
            index <= start <= session_raw.len(),
            session == raw_node::raws(session_raw@),
            pushed_out@ == raw_ids(session.take(index as int)),
        decreases start - index,
    {
        pushed_out.push(session_raw[index].id);
        assert(raw_ids(session.take(index + 1)) =~= raw_ids(session.take(index as int)).push(
            session_raw@[index as int].id,
        ));
        index = index + 1;
    }
    let mut context: Vec<String> = Vec::new();
    let mut included: Vec<RawNodeId> = Vec::new();
    let ghost window = session.skip(start as int);
    while index < session_raw.len()
        invariant
            start <= index <= session_raw.len(),
            session == raw_node::raws(session_raw@),
            window == session.skip(start as int),
            text::texts(context@) == contexts(window.take(index - start)),
            included@ == raw_ids(window.take(index - start)),
        decreases session_raw.len() - index,
    {
        let ghost before = text::texts(context@);
        let line = session_raw[index].context_text();
        context.push(line);
        included.push(session_raw[index].id);
        proof {
            let node = session_raw@[index as int]@;
            assert(window.take(index + 1 - start) =~= window.take(index - start).push(node));
            assert(text::texts(context@) =~= before.push(line@));
            assert(contexts(window.take(index + 1 - start)) =~= before.push(node.context()));
            assert(raw_ids(window.take(index + 1 - start)) =~= raw_ids(
                window.take(index - start),
            ).push(node.id));
        }
        index = index + 1;
    }
    assert(window.take(window.len() as int) =~= window);
    (context, SessionWindowDecision { included_raw_ids: included, pushed_out_raw_ids: pushed_out })
}

/// Appends lines as long as they stay within a budget; the rest of the budget
/// is handed back.
fn take_fitting<E: TokenEstimator + ?Sized>(
    estimator: &E,
    lines: Vec<String>,
    budget: usize,
) -> (result: (Vec<String>, usize))
    ensures
        text::texts(result.0@) == fitting(estimator, text::texts(lines@), budget as nat),
        result.1 == conversation::beyond(
            budget as nat,
            lines_tokens(estimator, fitting(estimator, text::texts(lines@), budget as nat)),
        ),
{
    let ghost all = text::texts(lines@);
    let mut lines = lines;
    let mut rest: usize = budget;
    let mut count: usize = 0;
    assert(all.skip(0) =~= all);
    assert(all.take(0) =~= Seq::<Seq<char>>::empty());
    while count < lines.len()
        invariant
            count <= lines.len(),
            all == text::texts(lines@),
            count + fitting_count(estimator, all.skip(count as int), rest as nat) == fitting_count(
                estimator,
                all,
                budget as nat,
            ),
            lines_tokens(estimator, all.take(count as int)) + rest == budget,
        ensures
            count <= lines.len(),
            count == fitting_count(estimator, all, budget as nat),
            lines_tokens(estimator, all.take(count as int)) + rest == budget,
        decreases lines.len() - count,
    {
        let estimated: usize = estimator.estimate_text(lines[count].as_str());
        proof {
            assert(all.skip(count as int)[0] == lines@[count as int]@);
            assert(all.skip(count as int).drop_first() =~= all.skip(count + 1));
            assert(all.take(count + 1).drop_last() =~= all.take(count as int));
            assert(all.take(count + 1).last() == lines@[count as int]@);
        }
        if estimated > rest {
            break ;
        }
        rest = rest - estimated;
        count = count + 1;
    }
    lines.truncate(count);
    assert(text::texts(lines@) =~= all.take(count as int));
    (lines, rest)
}

/// Collects the lines of memory that stay within a budget.
pub fn collect_memory_context<E: TokenEstimator + ?Sized>(
    estimator: &E,
    activated_memory: &ActivatedMemory,
    budget: usize,
) -> (context: Vec<String>)
    ensures
        text::texts(context@) == memory_lines(estimator, activated_memory@, budget as nat),
{
    let mut lines: Vec<String> = Vec::new();
    let mut index: usize = 0;
    let ghost entries = activated_memory@.abstract_nodes;
    while index < activated_memory.abstract_nodes.len()
        invariant
            index <= activated_memory.abstract_nodes.len(),
            entries == order::views(activated_memory.abstract_nodes@),
            text::texts(lines@) == entries.take(index as int).map_values(
                |entry: RankedAbstract| abstract_line(entry),
            ),
        decreases activated_memory.abstract_nodes.len() - index,
    {
        let ghost before = text::texts(lines@);
        let line = "abstract: ".to_string().concat(
            activated_memory.abstract_nodes[index].node.context_text().as_str(),
        );
        lines.push(line);
        proof {
            assert(text::texts(lines@) =~= before.push(line@));
            assert(entries.take(index + 1).map_values(
                |entry: RankedAbstract| abstract_line(entry),
            ) =~= before.push(abstract_line(entries[index as int])));
        }
        index = index + 1;
    }
    assert(entries.take(entries.len() as int) =~= entries);
    let (mut context, rest) = take_fitting(estimator, lines, budget);
    let mut lines: Vec<String> = Vec::new();
    let mut index: usize = 0;
    let ghost raw_entries = activated_memory@.raw_nodes;
    while index < activated_memory.raw_nodes.len()
        invariant
            index <= activated_memory.raw_nodes.len(),
            raw_entries == order::views(activated_memory.raw_nodes@),
            text::texts(lines@) == raw_entries.take(index as int).map_values(
                |entry: RankedRaw| raw_line(entry),
            ),
        decreases activated_memory.raw_nodes.len() - index,
    {
        let ghost before = text::texts(lines@);
        let line = "raw: ".to_string().concat(
            activated_memory.raw_nodes[index].node.context_text().as_str(),
        );
        lines.push(line);
        proof {
            assert(text::texts(lines@) =~= before.push(line@));
            assert(raw_entries.take(index + 1).map_values(|entry: RankedRaw| raw_line(entry))
                =~= before.push(raw_line(raw_entries[index as int])));
        }
        index = index + 1;
    }
    assert(raw_entries.take(raw_entries.len() as int) =~= raw_entries);
    let ghost chosen = text::texts(context@);
    let (mut more, _left) = take_fitting(estimator, lines, rest);
    let ghost added = more@;
    let ghost first = context@;
    context.append(&mut more);
    assert(text::texts(context@) =~= chosen + text::texts(added));
    context
}

/// Collects the summaries of tool results that stay within a budget.
pub fn collect_tool_context<E: TokenEstimator + ?Sized>(
    estimator: &E,
    tool_results: &[ToolCallResult],
    budget: usize,
) -> (context: Vec<String>)
    ensures
        text::texts(context@) == fitting(
            estimator,
            summaries(executor::results_view(tool_results@)),
            budget as nat,
        ),
{
    let mut lines: Vec<String> = Vec::new();
    let mut index: usize = 0;
    let ghost results = executor::results_view(tool_results@);
    while index < tool_results.len()
        invariant
            index <= tool_results.len(),
            results == executor::results_view(tool_results@),
            text::texts(lines@) == summaries(results.take(index as int)),
        decreases tool_results.len() - index,
    {
        let ghost before = text::texts(lines@);
        let line = tool_results[index].summary.clone();
        lines.push(line);
        proof {
            assert(text::texts(lines@) =~= before.push(line@));
            assert(summaries(results.take(index + 1)) =~= before.push(
                results[index as int].summary,
            ));
        }
        index = index + 1;
    }
    assert(results.take(results.len() as int) =~= results);
    let (context, _rest) = take_fitting(estimator, lines, budget);
    context
}

/// The session window and the nodes that fell out are the whole session, in
/// order, and no node is in both parts.
pub proof fn window_divides_the_session<E: TokenEstimator + ?Sized>(
    estimator: &E,
    budget: ContextBudgetConfig,
    system_prompt: Seq<char>,
    session: Seq<Raw>,
    memory: Memory,
    results: Seq<ToolResult>,
)
    ensures
        ({
            let context = assembled(estimator, budget, system_prompt, session, memory, results);
            context.pushed_out + context.included == raw_ids(session)
        }),
{
    session_window_fits(estimator, session, budget.session_budget());
    let start = window_start(estimator, session, budget.session_budget()) as int;
    assert(raw_ids(session.take(start)) + raw_ids(session.skip(start)) =~= raw_ids(session));
}

/// Each part of an assembled context stays within its part of the budget.
pub proof fn parts_stay_within_their_budgets<E: TokenEstimator + ?Sized>(
    estimator: &E,
    budget: ContextBudgetConfig,
    system_prompt: Seq<char>,
    session: Seq<Raw>,
    memory: Memory,
    results: Seq<ToolResult>,
)
    ensures
        ({
            let context = assembled(estimator, budget, system_prompt, session, memory, results);
            &&& lines_tokens(estimator, context.session_context) <= budget.session_budget()
            &&& lines_tokens(estimator, context.memory_context) <= budget.memory_budget()
            &&& lines_tokens(estimator, context.tool_context) <= budget.reserve_tools
        }),
{
    session_window_fits(estimator, session, budget.session_budget());
    fitting_lines_fit(estimator, summaries(results), budget.reserve_tools as nat);
    let chosen = fitting(estimator, abstract_lines(memory), budget.memory_budget());
    fitting_lines_fit(estimator, abstract_lines(memory), budget.memory_budget());
    let rest = conversation::beyond(budget.memory_budget(), lines_tokens(estimator, chosen));
    fitting_lines_fit(estimator, raw_lines(memory), rest);
    lines_tokens_add(estimator, chosen, fitting(estimator, raw_lines(memory), rest));
}

/// Rounding a number up to a number of 24 digits never passes a multiple of
/// the rounding step that is at least as large.
proof fn rounded_stays_below(value: nat, bound: nat)
    requires
        value <= bound,
        bound % float32::rounding_step(value) == 0,
        float32::rounding_step(value) > 0,
    ensures
        float32::rounded(value) <= bound,
{
    let step = float32::rounding_step(value) as int;
    let whole = value as int / step;
    let rest = value as int % step;
    let multiple = bound as int / step;
    div_mod::lemma_fundamental_div_mod(value as int, step);
    div_mod::lemma_fundamental_div_mod(bound as int, step);
    assert(rest > 0 ==> (whole + 1) * step <= bound) by (nonlinear_arith)
        requires
            value as int == step * whole + rest,
            bound as int == step * multiple,
            value <= bound,
            step > 0,
            0 <= rest < step,
    ;
    assert(whole * step <= bound) by (nonlinear_arith)
        requires
            value as int == step * whole + rest,
            value <= bound,
            rest >= 0,
    ;
}

/// The rounding step is a power of two that leaves at least 24 digits.
proof fn rounding_step_is_power(value: nat) -> (exponent: nat)
    ensures
        float32::rounding_step(value) == power2::pow2(exponent),
        float32::rounding_step(value) > 1 ==> value >= float32::rounding_step(value) * 0x80_0000,
    decreases value,
{
    if value < 0x100_0000 {
        power2::lemma2_to64();
        0
    } else {
        let exponent = rounding_step_is_power(value / 2);
        power2::lemma_pow2_unfold(exponent + 1);
        exponent + 1
    }
}

/// No ratio up to one takes more than the whole of a number of at most 24
/// digits.
pub proof fn share_is_part(value: nat, ratio: Float32)
    requires
        value < 0x100_0000,
        ratio.bits <= float32::ONE_BITS,
    ensures
        float32::share(value, ratio) <= value,
{
    let significand = ratio.significand();
    let scale = ratio.scale();
    assert(float32::rounding_step(value) == 1);
    assert(value / 1 == value && value % 1 == 0);
    assert(float32::rounded(value) == value);
    let product = value * significand;
    let limit = power2::pow2((149 - scale) as nat);
    power2::lemma_pow2_pos((149 - scale) as nat);
    assert(significand <= limit) by {
        power2::lemma2_to64();
        if scale < 126 {
            power2::lemma_pow2_strictly_increases(23, (149 - scale) as nat);
            power2::lemma_pow2_unfold(24);
            if scale < 125 {
                power2::lemma_pow2_strictly_increases(24, (149 - scale) as nat);
            }
        }
    }
    let bound = value * limit;
    assert(product <= bound) by (nonlinear_arith)
        requires
            product == value * significand,
            bound == value * limit,
            significand <= limit,
    ;
    let exponent = rounding_step_is_power(product);
    let step = float32::rounding_step(product);
    assert(bound % step == 0) by {
        if step == 1 {
            assert(bound % 1 == 0);
        } else {
            assert(step < 2 * limit) by (nonlinear_arith)
                requires
                    step * 0x80_0000 <= bound,
                    bound == value * limit,
                    value < 0x100_0000,
                    limit > 0,
            ;
            let size = (149 - scale) as nat;
            power2::lemma_pow2_unfold(size + 1);
            if exponent > size {
                if exponent > size + 1 {
                    power2::lemma_pow2_strictly_increases(size + 1, exponent);
                }
                assert(false);
            }
            power2::lemma_pow2_adds(exponent, (size - exponent) as nat);
            let factor = power2::pow2((size - exponent) as nat);
            assert(bound == (value * factor) * step) by (nonlinear_arith)
                requires
                    bound == value * limit,
                    limit == step * factor,
            ;
            power2::lemma_pow2_pos(exponent);
            div_mod::lemma_mod_multiples_basic((value * factor) as int, step as int);
        }
    }
    power2::lemma_pow2_pos(exponent);
    rounded_stays_below(product, bound);
    let kept = float32::rounded(product);
    power2::lemma_pow2_adds((149 - scale) as nat, scale);
    power2::lemma_pow2_pos(scale);
    power2::lemma_pow2_pos(149);
    assert(kept * power2::pow2(scale) <= value * power2::pow2(149)) by (nonlinear_arith)
        requires
            kept <= value * limit,
            power2::pow2(149) == limit * power2::pow2(scale),
            power2::pow2(scale) > 0,
    ;
    div_mod::lemma_div_is_ordered(
        (kept * power2::pow2(scale)) as int,
        (value * power2::pow2(149)) as int,
        power2::pow2(149) as int,
    );
    div_mod::lemma_div_multiples_vanish(value as int, power2::pow2(149) as int);
    assert(value * power2::pow2(149) == power2::pow2(149) * value) by (nonlinear_arith);
}

/// Under an accepted configuration whose system prompt stays within its
/// reserve, an assembled context stays within the total.
pub proof fn context_stays_within_total<E: TokenEstimator + ?Sized>(
    estimator: &E,
    config: EngineConfig,
    session: Seq<Raw>,
    memory: Memory,
    results: Seq<ToolResult>,
)
    requires
        config.fault() is None,
        estimator.tokens(config.system_prompt@) <= config.context_budget.reserve_system,
    ensures
        assembled(
            estimator,
            config.context_budget,
            config.system_prompt@,
            session,
            memory,
            results,
        ).total_estimated_tokens <= config.context_budget.total_tokens,
{
    let budget = config.context_budget;
    parts_stay_within_their_budgets(
        estimator,
        budget,
        config.system_prompt@,
        session,
        memory,
        results,
    );
    if budget.session_ratio.bits <= float32::ONE_BITS {
        share_is_part(budget.remaining(), budget.session_ratio);
    }
}

/// A line is left out only where it would not fit any more.
proof fn fitting_is_longest<E: TokenEstimator + ?Sized>(
    estimator: &E,
    lines: Seq<Seq<char>>,
    budget: nat,
)
    ensures
        ({
            let count = fitting_count(estimator, lines, budget) as int;
            count < lines.len() ==> lines_tokens(estimator, lines.take(count)) + estimator.tokens(
                lines[count],
            ) > budget
        }),
    decreases lines.len(),
{
    let count = fitting_count(estimator, lines, budget) as int;
    if lines.len() == 0 || estimator.tokens(lines[0]) > budget {
    } else {
        let rest = (budget - estimator.tokens(lines[0])) as nat;
        fitting_lines_fit(estimator, lines.drop_first(), rest);
        fitting_is_longest(estimator, lines.drop_first(), rest);
        assert(lines.take(count) =~= seq![lines[0]] + lines.drop_first().take(count - 1));
        lines_tokens_add(estimator, seq![lines[0]], lines.drop_first().take(count - 1));
        lines_tokens_one(estimator, lines[0]);
        if count < lines.len() {
            assert(lines[count] == lines.drop_first()[count - 1]);
        }
    }
}

/// Part of lines that fit has no more tokens than all of them.
proof fn parts_have_fewer_tokens<E: TokenEstimator + ?Sized>(
    estimator: &E,
    lines: Seq<Seq<char>>,
    count: int,
)
    requires
        0 <= count < lines.len(),
    ensures
        lines_tokens(estimator, lines.take(count)) + estimator.tokens(lines[count])
            <= lines_tokens(estimator, lines),
{
    let rest = lines.skip(count);
    assert(lines =~= lines.take(count) + rest);
    assert(rest =~= seq![lines[count]] + rest.drop_first());
    lines_tokens_add(estimator, lines.take(count), rest);
    lines_tokens_add(estimator, seq![lines[count]], rest.drop_first());
    lines_tokens_one(estimator, lines[count]);
}

/// The memories of a context are the first abstract ones and then the first raw
/// ones, and a memory is left out only where it would not fit: the next abstract
/// line would exceed the budget, and so would the next raw line beside all that
/// was taken. Where all memories fit, the context holds all of them.
pub proof fn memories_fill_their_budget<E: TokenEstimator + ?Sized>(
    estimator: &E,
    budget: ContextBudgetConfig,
    system_prompt: Seq<char>,
    session: Seq<Raw>,
    memory: Memory,
    results: Seq<ToolResult>,
)
    ensures
        ({
            let context = assembled(
                estimator,
                budget,
                system_prompt,
                session,
                memory,
                results,
            ).memory_context;
            let share = float32::share(budget.remaining(), budget.session_ratio);
            let most = budget.remaining() - share;
            let abstracts = Seq::new(
                memory.abstract_nodes.len(),
                |i: int| "abstract: "@ + memory.abstract_nodes[i].node.context(),
            );
            let raws = Seq::new(
                memory.raw_nodes.len(),
                |i: int| "raw: "@ + memory.raw_nodes[i].node.context(),
            );
            &&& exists|a: int, r: int|
                #![trigger abstracts.take(a), raws.take(r)]
                {
                    &&& 0 <= a <= abstracts.len()
                    &&& 0 <= r <= raws.len()
                    &&& context == abstracts.take(a) + raws.take(r)
                    &&& a < abstracts.len() ==> lines_tokens(estimator, abstracts.take(a))
                        + estimator.tokens(abstracts[a]) > most
                    &&& r < raws.len() ==> lines_tokens(estimator, context) + estimator.tokens(
                        raws[r],
                    ) > most
                }
            &&& lines_tokens(estimator, abstracts) + lines_tokens(estimator, raws) <= most
                ==> context == abstracts + raws
        }),
{
    let context = assembled(
        estimator,
        budget,
        system_prompt,
        session,
        memory,
        results,
    ).memory_context;
    let share = float32::share(budget.remaining(), budget.session_ratio);
    let most = budget.memory_budget();
    let abstracts = Seq::new(
        memory.abstract_nodes.len(),
        |i: int| "abstract: "@ + memory.abstract_nodes[i].node.context(),
    );
    let raws = Seq::new(
        memory.raw_nodes.len(),
        |i: int| "raw: "@ + memory.raw_nodes[i].node.context(),
    );
    assert(abstracts =~= abstract_lines(memory));
    assert(raws =~= raw_lines(memory));
    let a = fitting_count(estimator, abstracts, most) as int;
    let chosen = abstracts.take(a);
    fitting_lines_fit(estimator, abstracts, most);
    fitting_is_longest(estimator, abstracts, most);
    let rest = conversation::beyond(most, lines_tokens(estimator, chosen));
    let r = fitting_count(estimator, raws, rest) as int;
    fitting_lines_fit(estimator, raws, rest);
    fitting_is_longest(estimator, raws, rest);
    lines_tokens_add(estimator, chosen, raws.take(r));
    assert(context == chosen + raws.take(r));
    if lines_tokens(estimator, abstracts) + lines_tokens(estimator, raws)
        <= budget.remaining() - share {
        if a < abstracts.len() {
            parts_have_fewer_tokens(estimator, abstracts, a);
        }
        assert(chosen =~= abstracts);
        if r < raws.len() {
            parts_have_fewer_tokens(estimator, raws, r);
        }
        assert(raws.take(r) =~= raws);
    }
}

/// The session window holds the newest nodes of the session, in order, and the
/// newest node that fell out would not have fitted beside them. The identifiers
/// tell which nodes are inside and which fell out.
pub proof fn the_session_fills_its_budget<E: TokenEstimator + ?Sized>(
    estimator: &E,
    budget: ContextBudgetConfig,
    system_prompt: Seq<char>,
    session: Seq<Raw>,
    memory: Memory,
    results: Seq<ToolResult>,
)
    ensures
        ({
            let context = assembled(estimator, budget, system_prompt, session, memory, results);
            let start = session.len() - context.session_context.len();
            &&& 0 <= start <= session.len()
            &&& context.session_context == Seq::new(
                context.session_context.len(),
                |i: int| session[start + i].context(),
            )
            &&& context.included == Seq::new(
                context.session_context.len(),
                |i: int| session[start + i].id,
            )
            &&& context.pushed_out == Seq::new(start as nat, |i: int| session[i].id)
            &&& start > 0 ==> lines_tokens(estimator, context.session_context) + estimator.tokens(
                session[start - 1].context(),
            ) > float32::share(budget.remaining(), budget.session_ratio)
        }),
{
    let most = budget.session_budget();
    session_window_fits(estimator, session, most);
    session_window_is_longest(estimator, session, most);
    let start = window_start(estimator, session, most) as int;
    let context = assembled(estimator, budget, system_prompt, session, memory, results);
    assert(context.session_context.len() == session.len() - start);
    assert(context.session_context =~= Seq::new(
        context.session_context.len(),
        |i: int| session[start + i].context(),
    ));
    assert(context.included =~= Seq::new(
        context.session_context.len(),
        |i: int| session[start + i].id,
    ));
    assert(context.pushed_out =~= Seq::new(start as nat, |i: int| session[i].id));
}

proof fn session_window_is_longest<E: TokenEstimator + ?Sized>(
    estimator: &E,
    session: Seq<Raw>,
    budget: nat,
)
    ensures
        ({
            let start = window_start(estimator, session, budget) as int;
            start > 0 ==> lines_tokens(estimator, contexts(session.skip(start))) + estimator.tokens(
                session[start - 1].context(),
            ) > budget
        }),
    decreases session.len(),
{
    let start = window_start(estimator, session, budget) as int;
    if session.len() == 0 || estimator.tokens(session.last().context()) > budget {
    } else {
        let rest = (budget - estimator.tokens(session.last().context())) as nat;
        session_window_fits(estimator, session.drop_last(), rest);
        session_window_is_longest(estimator, session.drop_last(), rest);
        let kept = contexts(session.skip(start));
        assert(kept.drop_last() =~= contexts(session.drop_last().skip(start)));
        assert(kept.last() == session.last().context());
        if start > 0 {
            assert(session.drop_last()[start - 1] == session[start - 1]);
        }
    }
}

/// The tool summaries of a context are the first ones, and the next one would
/// not have fitted beside them. The system prompt stands as it was given, and
/// the total is what all parts have, as far as it can be counted.
pub proof fn tools_fill_their_budget<E: TokenEstimator + ?Sized>(
    estimator: &E,
    budget: ContextBudgetConfig,
    system_prompt: Seq<char>,
    session: Seq<Raw>,
    memory: Memory,
    results: Seq<ToolResult>,
)
    ensures
        ({
            let context = assembled(estimator, budget, system_prompt, session, memory, results);
            let count = context.tool_context.len() as int;
            let total = estimator.tokens(system_prompt) + lines_tokens(
                estimator,
                context.session_context + context.memory_context + context.tool_context,
            );
            &&& count <= results.len()
            &&& context.tool_context == Seq::new(count as nat, |i: int| results[i].summary)
            &&& count < results.len() ==> lines_tokens(estimator, context.tool_context)
                + estimator.tokens(results[count].summary) > budget.reserve_tools
            &&& context.system_prompt == system_prompt
            &&& context.total_estimated_tokens == if total <= usize::MAX {
                total
            } else {
                usize::MAX as nat
            }
        }),
{
    let context = assembled(estimator, budget, system_prompt, session, memory, results);
    let lines = summaries(results);
    let most = budget.reserve_tools as nat;
    fitting_lines_fit(estimator, lines, most);
    fitting_is_longest(estimator, lines, most);
    let count = context.tool_context.len();
    assert(context.tool_context =~= Seq::new(count, |i: int| results[i].summary));
    lines_tokens_add(estimator, context.session_context, context.memory_context);
    lines_tokens_add(
        estimator,
        context.session_context + context.memory_context,
        context.tool_context,
    );
}

/// A number of at most 24 digits survives being scaled by a power of two.
proof fn scaling_is_exact(value: nat)
    requires
        value < 0x100_0000,
    ensures
        float32::rounded(value) == value,
        float32::rounded(value * 0x80_0000) == value * 0x80_0000,
{
    assert(float32::rounding_step(value) == 1);
    assert(value / 1 == value && value % 1 == 0);
    let product = value * 0x80_0000;
    let exponent = rounding_step_is_power(product);
    let step = float32::rounding_step(product);
    power2::lemma2_to64();
    power2::lemma_pow2_pos(exponent);
    assert(product % step == 0) by {
        if step == 1 {
            assert(product % 1 == 0);
        } else {
            if exponent > 23 {
                power2::lemma_pow2_unfold(24);
                if exponent > 24 {
                    power2::lemma_pow2_strictly_increases(24, exponent);
                }
                assert(false);
            }
            power2::lemma_pow2_adds(exponent, (23 - exponent) as nat);
            let factor = power2::pow2((23 - exponent) as nat);
            assert(product == (value * factor) * step) by (nonlinear_arith)
                requires
                    product == value * 0x80_0000,
                    0x80_0000 == step * factor,
            ;
            div_mod::lemma_mod_multiples_basic((value * factor) as int, step as int);
        }
    }
    div_mod::lemma_fundamental_div_mod(product as int, step as int);
    assert((product / step) * step == product) by (nonlinear_arith)
        requires
            product as int == step * (product / step) + product % step,
            product % step == 0,
    ;
}

/// The whole of a number is the number, half of it is its half rounded down, and
/// none of it is nothing.
pub proof fn shares_are_what_they_say(value: nat)
    requires
        value < 0x100_0000,
    ensures
        float32::share(value, Float32 { bits: 0x3f80_0000 }) == value,
        float32::share(value, Float32 { bits: 0x3f00_0000 }) == value / 2,
        float32::share(value, Float32 { bits: 0 }) == 0,
{
    scaling_is_exact(value);
    let product = value * 0x80_0000;
    let one = Float32 { bits: 0x3f80_0000 };
    let half = Float32 { bits: 0x3f00_0000 };
    assert(one.significand() == 0x80_0000 && one.scale() == 126);
    assert(half.significand() == 0x80_0000 && half.scale() == 125);
    power2::lemma2_to64();
    power2::lemma_pow2_adds(23, 126);
    power2::lemma_pow2_adds(23, 125);
    power2::lemma_pow2_unfold(149);
    power2::lemma_pow2_pos(149);
    power2::lemma_pow2_pos(148);
    let whole = power2::pow2(149);
    let part = power2::pow2(148);
    assert(product * power2::pow2(126) == value * whole) by (nonlinear_arith)
        requires
            product == value * 0x80_0000,
            whole == 0x80_0000 * power2::pow2(126),
    ;
    assert(product * power2::pow2(125) == value * part) by (nonlinear_arith)
        requires
            product == value * 0x80_0000,
            part == 0x80_0000 * power2::pow2(125),
    ;
    div_mod::lemma_div_by_multiple(value as int, whole as int);
    div_mod::lemma_div_by_multiple(value as int, part as int);
    div_mod::lemma_div_denominator((value * part) as int, part as int, 2);
    assert(whole == part * 2);
    let none = Float32 { bits: 0 };
    assert(none.significand() == 0);
    assert(value * 0 == 0);
    assert(float32::rounding_step(0) == 1);
    assert(float32::rounded(0) == 0);
}

} // verus!
