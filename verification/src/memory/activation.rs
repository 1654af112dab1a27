//! Activation: which of the found memories are put before the model.
use vstd::prelude::*;

use crate::config::{ActivationConfig, EngineConfig, RetrievalConfig};
use crate::domain::abstract_node::{Abstract, AbstractNode};
use crate::domain::raw_node::{DistillationState, Raw, RawNode};
use crate::float32::Float32;
use crate::memory::scoring;
use crate::memory::scoring::{overflow_relaxation_active, ScoringPolicy};
use crate::order;
use crate::order::{sort_by, Order};
use crate::storage::records::{ScoredAbstractRef, ScoredRawRef};
use crate::time::Timestamp;

verus! {

/// A raw memory with its score.
#[derive(Debug, PartialEq, Eq)]
pub struct RankedRawNode {
    pub node: RawNode,
    pub score: Float32,
}

/// A raw memory with its score, as a mathematical value.
#[verifier::ext_equal]
pub struct RankedRaw {
    pub node: Raw,
    pub score: Float32,
}

impl View for RankedRawNode {
    type V = RankedRaw;

    open spec fn view(&self) -> RankedRaw {
        RankedRaw { node: self.node@, score: self.score }
    }
}

impl Clone for RankedRawNode {
    fn clone(&self) -> (result: Self)
        ensures
            result@ == self@,
    {
        RankedRawNode { node: self.node.clone(), score: self.score }
    }
}

/// An abstract memory with its score.
#[derive(Debug, PartialEq, Eq)]
pub struct RankedAbstractNode {
    pub node: AbstractNode,
    pub score: Float32,
}

/// An abstract memory with its score, as a mathematical value.
#[verifier::ext_equal]
pub struct RankedAbstract {
    pub node: Abstract,
    pub score: Float32,
}

impl View for RankedAbstractNode {
    type V = RankedAbstract;

    open spec fn view(&self) -> RankedAbstract {
        RankedAbstract { node: self.node@, score: self.score }
    }
}

impl Clone for RankedAbstractNode {
    fn clone(&self) -> (result: Self)
        ensures
            result@ == self@,
    {
        RankedAbstractNode { node: self.node.clone(), score: self.score }
    }
}

/// The memories that were activated, best first.
#[derive(Debug, PartialEq, Eq)]
pub struct ActivatedMemory {
    pub raw_nodes: Vec<RankedRawNode>,
    pub abstract_nodes: Vec<RankedAbstractNode>,
}

/// Activated memories as a mathematical value.
#[verifier::ext_equal]
pub struct Memory {
    pub raw_nodes: Seq<RankedRaw>,
    pub abstract_nodes: Seq<RankedAbstract>,
}

impl View for ActivatedMemory {
    type V = Memory;

    open spec fn view(&self) -> Memory {
        Memory {
            raw_nodes: order::views(self.raw_nodes@),
            abstract_nodes: order::views(self.abstract_nodes@),
        }
    }
}

impl Default for ActivatedMemory {
    fn default() -> (memory: Self)
        ensures
            memory@ == (Memory { raw_nodes: Seq::empty(), abstract_nodes: Seq::empty() }),
    {
        let memory = ActivatedMemory { raw_nodes: Vec::new(), abstract_nodes: Vec::new() };
        assert(memory@.raw_nodes =~= Seq::empty());
        assert(memory@.abstract_nodes =~= Seq::empty());
        memory
    }
}

impl Clone for ActivatedMemory {
    fn clone(&self) -> (result: Self)
        ensures
            result@ == self@,
    {
        let mut raw_nodes: Vec<RankedRawNode> = Vec::new();
        let mut index: usize = 0;
        while index < self.raw_nodes.len()
            invariant
                index <= self.raw_nodes.len(),
                order::views(raw_nodes@) == order::views(self.raw_nodes@).take(index as int),
            decreases self.raw_nodes.len() - index,
        {
            let ghost before = order::views(raw_nodes@);
            let copy = self.raw_nodes[index].clone();
            raw_nodes.push(copy);
            assert(order::views(raw_nodes@) =~= before.push(copy@));
            index = index + 1;
        }
        let mut abstract_nodes: Vec<RankedAbstractNode> = Vec::new();
        let mut index: usize = 0;
        while index < self.abstract_nodes.len()
            invariant
                index <= self.abstract_nodes.len(),
                order::views(abstract_nodes@) == order::views(self.abstract_nodes@).take(
                    index as int,
                ),
            decreases self.abstract_nodes.len() - index,
        {
            let ghost before = order::views(abstract_nodes@);
            let copy = self.abstract_nodes[index].clone();
            abstract_nodes.push(copy);
            assert(order::views(abstract_nodes@) =~= before.push(copy@));
            index = index + 1;
        }
        ActivatedMemory { raw_nodes, abstract_nodes }
    }
}

/// How many memories are searched and how many of each kind are kept.
#[derive(Debug, Clone, Copy, PartialEq, Eq, Structural)]
pub struct ActivationWindow {
    pub search_window: usize,
    pub raw_budget: usize,
    pub abstract_budget: usize,
}

/// A number, but at least another.
pub open spec fn at_least(value: int, least: int) -> int {
    if value < least {
        least
    } else {
        value
    }
}

impl ActivationConfig {
    /// The total, but at least one place for each kind.
    pub open spec fn window_total(self) -> int {
        at_least(self.top_k_total as int, 2)
    }

    /// The part of the raw memories, but at least one.
    pub open spec fn raw_part(self) -> int {
        at_least(self.target_ratio.raw as int, 1)
    }

    /// The part of the abstract memories, but at least one.
    pub open spec fn abstract_part(self) -> int {
        at_least(self.target_ratio.abstract_nodes as int, 1)
    }

    /// Raw memories that are kept.
    pub open spec fn raw_window(self) -> int {
        at_least(
            self.window_total() * self.raw_part() / (self.raw_part() + self.abstract_part()),
            1,
        )
    }

    /// Abstract memories that are kept.
    pub open spec fn abstract_window(self) -> int {
        at_least(self.window_total() - self.raw_window(), 1)
    }

    /// Whether the window can be computed in the machine's sizes.
    pub open spec fn window_fits(self) -> bool {
        &&& self.raw_part() + self.abstract_part() <= usize::MAX
        &&& self.window_total() * self.raw_part() <= usize::MAX
        &&& self.window_total() * 2 <= usize::MAX
    }

    /// How many memories are searched and how many of each kind are kept.
    pub fn window(&self) -> (result: ActivationWindow)
        requires
            self.window_fits(),
        ensures
            result.search_window == self.window_total() * 2,
            result.raw_budget == self.raw_window(),
            result.abstract_budget == self.abstract_window(),
    {
        let raw_ratio: usize = if self.target_ratio.raw < 1 {
            1
        } else {
            self.target_ratio.raw
        };
        let abstract_ratio: usize = if self.target_ratio.abstract_nodes < 1 {
            1
        } else {
            self.target_ratio.abstract_nodes
        };
        let total_ratio: usize = raw_ratio + abstract_ratio;
        let top_k_total: usize = if self.top_k_total < 2 {
            2
        } else {
            self.top_k_total
        };
        let share: usize = (top_k_total * raw_ratio) / total_ratio;
        let raw_budget: usize = if share < 1 {
            1
        } else {
            share
        };
        let rest: usize = top_k_total.saturating_sub(raw_budget);
        let abstract_budget: usize = if rest < 1 {
            1
        } else {
            rest
        };
        ActivationWindow { search_window: top_k_total * 2, raw_budget, abstract_budget }
    }

    /// How many memories are searched and how many of each kind are kept, where
    /// that can be computed in the machine's sizes.
    pub fn checked_window(&self) -> (result: Option<ActivationWindow>)
        ensures
            match result {
                Some(window) => {
                    &&& self.window_fits()
                    &&& window.search_window == self.window_total() * 2
                    &&& window.raw_budget == self.raw_window()
                    &&& window.abstract_budget == self.abstract_window()
                },
                None => !self.window_fits(),
            },
    {
        let raw_ratio: usize = if self.target_ratio.raw < 1 {
            1
        } else {
            self.target_ratio.raw
        };
        let abstract_ratio: usize = if self.target_ratio.abstract_nodes < 1 {
            1
        } else {
            self.target_ratio.abstract_nodes
        };
        let top_k_total: usize = if self.top_k_total < 2 {
            2
        } else {
            self.top_k_total
        };
        let fits = raw_ratio.checked_add(abstract_ratio).is_some() && top_k_total.checked_mul(
            raw_ratio,
        ).is_some() && top_k_total.checked_mul(2).is_some();
        if fits {
            Some(self.window())
        } else {
            None
        }
    }
}

/// On an accepted configuration the window fits and agrees with the budgets
/// that the configuration asks for.
pub proof fn window_agrees_with_budgets(config: ActivationConfig)
    requires
        config.fault() is None,
    ensures
        config.window_fits(),
        config.raw_window() == config.raw_budget(),
        config.abstract_window() == config.top_k_total - config.raw_budget(),
{
    let total = config.top_k_total as int;
    let raw = config.target_ratio.raw as int;
    let sum = config.target_ratio.raw + config.target_ratio.abstract_nodes;
    assert(total * raw / sum <= total - 1) by (nonlinear_arith)
        requires
            raw >= 1,
            sum >= raw + 1,
            total >= 2,
    ;
}

/// A raw node that a search found, with the node if it still exists.
#[derive(Debug)]
pub struct RawCandidate {
    pub reference: ScoredRawRef,
    pub node: Option<RawNode>,
}

/// A found raw node as a mathematical value.
pub struct FoundRaw {
    pub similarity: Float32,
    pub node: Option<Raw>,
}

impl View for RawCandidate {
    type V = FoundRaw;

    open spec fn view(&self) -> FoundRaw {
        FoundRaw {
            similarity: self.reference.score,
            node: match self.node {
                Some(node) => Some(node@),
                None => None,
            },
        }
    }
}

/// An abstract node that a search found, with the node if it still exists.
#[derive(Debug)]
pub struct AbstractCandidate {
    pub reference: ScoredAbstractRef,
    pub node: Option<AbstractNode>,
}

/// A found abstract node as a mathematical value.
pub struct FoundAbstract {
    pub similarity: Float32,
    pub node: Option<Abstract>,
}

impl View for AbstractCandidate {
    type V = FoundAbstract;

    open spec fn view(&self) -> FoundAbstract {
        FoundAbstract {
            similarity: self.reference.score,
            node: match self.node {
                Some(node) => Some(node@),
                None => None,
            },
        }
    }
}

/// The similarity that a raw node needs: until its deadline, less for one that
/// fell out of the session window before it was distilled.
pub open spec fn needed_similarity(
    retrieval: RetrievalConfig,
    node: Raw,
    now: Timestamp,
) -> Float32 {
    if scoring::is_relaxed(node, now) && node.distillation_state != DistillationState::Distilled {
        retrieval.relaxed_threshold_for_pushed_raw
    } else {
        retrieval.similarity_threshold.raw
    }
}

/// The similarity that a raw node needs at an instant.
pub fn raw_threshold(retrieval: &RetrievalConfig, node: &RawNode, now: Timestamp) -> (result:
    Float32)
    ensures
        result == needed_similarity(*retrieval, node@, now),
{
    if overflow_relaxation_active(node, now) && node.distillation_state
        != DistillationState::Distilled {
        retrieval.relaxed_threshold_for_pushed_raw
    } else {
        retrieval.similarity_threshold.raw
    }
}

/// The found raw nodes that exist and are similar enough, scored, in the order
/// in which they were found.
pub open spec fn scored_raws<P: ScoringPolicy + ?Sized>(
    policy: &P,
    retrieval: RetrievalConfig,
    now: Timestamp,
    candidates: Seq<FoundRaw>,
) -> Seq<RankedRaw>
    decreases candidates.len(),
{
    if candidates.len() == 0 {
        Seq::empty()
    } else {
        let earlier = scored_raws(policy, retrieval, now, candidates.drop_last());
        let found = candidates.last();
        match found.node {
            Some(node) => if found.similarity.less(needed_similarity(retrieval, node, now)) {
                earlier
            } else {
                earlier.push(
                    RankedRaw { node, score: policy.raw_score(found.similarity, node, now) },
                )
            },
            None => earlier,
        }
    }
}

/// The found abstract nodes that exist and are similar enough, scored, in the
/// order in which they were found.
pub open spec fn scored_abstracts<P: ScoringPolicy + ?Sized>(
    policy: &P,
    retrieval: RetrievalConfig,
    now: Timestamp,
    candidates: Seq<FoundAbstract>,
) -> Seq<RankedAbstract>
    decreases candidates.len(),
{
    if candidates.len() == 0 {
        Seq::empty()
    } else {
        let earlier = scored_abstracts(policy, retrieval, now, candidates.drop_last());
        let found = candidates.last();
        match found.node {
            Some(node) => if found.similarity.less(retrieval.similarity_threshold.abstract_nodes) {
                earlier
            } else {
                earlier.push(
                    RankedAbstract {
                        node,
                        score: policy.abstract_score(found.similarity, node, now),
                    },
                )
            },
            None => earlier,
        }
    }
}

/// Orders raw memories by descending score.
pub struct RawByScore;

impl Order<RankedRawNode> for RawByScore {
    open spec fn before(&self, left: RankedRaw, right: RankedRaw) -> bool {
        right.score.less(left.score)
    }

    fn is_before(&self, left: &RankedRawNode, right: &RankedRawNode) -> (result: bool) {
        right.score.is_less(&left.score)
    }
}

/// Orders abstract memories by descending score.
pub struct AbstractByScore;

impl Order<RankedAbstractNode> for AbstractByScore {
    open spec fn before(&self, left: RankedAbstract, right: RankedAbstract) -> bool {
        right.score.less(left.score)
    }

    fn is_before(&self, left: &RankedAbstractNode, right: &RankedAbstractNode) -> (result: bool) {
        right.score.is_less(&left.score)
    }
}

/// The first so many values.
pub open spec fn first<V>(items: Seq<V>, count: int) -> Seq<V> {
    if count < items.len() {
        items.take(count)
    } else {
        items
    }
}

/// The raw memories that are activated: the best scored, best first.
pub open spec fn best_raws<P: ScoringPolicy + ?Sized>(
    policy: &P,
    retrieval: RetrievalConfig,
    now: Timestamp,
    candidates: Seq<FoundRaw>,
    budget: int,
) -> Seq<RankedRaw> {
    first(
        order::ordered(
            |left: RankedRaw, right: RankedRaw| right.score.less(left.score),
            scored_raws(policy, retrieval, now, candidates),
        ),
        budget,
    )
}

/// The abstract memories that are activated: the best scored, best first.
pub open spec fn best_abstracts<P: ScoringPolicy + ?Sized>(
    policy: &P,
    retrieval: RetrievalConfig,
    now: Timestamp,
    candidates: Seq<FoundAbstract>,
    budget: int,
) -> Seq<RankedAbstract> {
    first(
        order::ordered(
            |left: RankedAbstract, right: RankedAbstract| right.score.less(left.score),
            scored_abstracts(policy, retrieval, now, candidates),
        ),
        budget,
    )
}

/// Chooses among the raw nodes that a search found.
pub fn select_raw<P: ScoringPolicy + ?Sized>(
    policy: &P,
    retrieval: &RetrievalConfig,
    now: Timestamp,
    candidates: Vec<RawCandidate>,
    budget: usize,
) -> (result: Vec<RankedRawNode>)
    ensures
        order::views(result@) == best_raws(
            policy,
            *retrieval,
            now,
            order::views(candidates@),
            budget as int,
        ),
{
    let ghost found = order::views(candidates@);
    let mut ranked: Vec<RankedRawNode> = Vec::new();
    let mut index: usize = 0;
    assert(order::views(ranked@) =~= Seq::empty());
    assert(found.take(0) =~= Seq::empty());
    while index < candidates.len()
        invariant
            index <= candidates.len(),
            found == order::views(candidates@),
            order::views(ranked@) == scored_raws(policy, *retrieval, now, found.take(index as int)),
        decreases candidates.len() - index,
    {
        let candidate = &candidates[index];
        let ghost before = order::views(ranked@);
        proof {
            assert(found.take(index + 1).drop_last() =~= found.take(index as int));
            assert(found.take(index + 1).last() == candidate@);
        }
        if let Some(node) = &candidate.node {
            let threshold = raw_threshold(retrieval, node, now);
            if !candidate.reference.score.is_less(&threshold) {
                let score = policy.score_raw(candidate.reference.score, node, now);
                let entry = RankedRawNode { node: node.clone(), score };
                ranked.push(entry);
                assert(order::views(ranked@) =~= before.push(entry@));
            }
        }
        index = index + 1;
    }
    assert(found.take(found.len() as int) =~= found);
    let mut result = sort_by(ranked, &RawByScore);
    proof {
        assert(order::order_of::<RankedRawNode, RawByScore>(&RawByScore) =~= |
            left: RankedRaw,
            right: RankedRaw,
        | right.score.less(left.score));
    }
    let ghost all = order::views(result@);
    result.truncate(budget);
    assert(order::views(result@) =~= first(all, budget as int));
    result
}

/// Chooses among the abstract nodes that a search found.
pub fn select_abstract<P: ScoringPolicy + ?Sized>(
    policy: &P,
    retrieval: &RetrievalConfig,
    now: Timestamp,
    candidates: Vec<AbstractCandidate>,
    budget: usize,
) -> (result: Vec<RankedAbstractNode>)
    ensures
        order::views(result@) == best_abstracts(
            policy,
            *retrieval,
            now,
            order::views(candidates@),
            budget as int,
        ),
{
    let ghost found = order::views(candidates@);
    let mut ranked: Vec<RankedAbstractNode> = Vec::new();
    let mut index: usize = 0;
    assert(order::views(ranked@) =~= Seq::empty());
    assert(found.take(0) =~= Seq::empty());
    while index < candidates.len()
        invariant
            index <= candidates.len(),
            found == order::views(candidates@),
            order::views(ranked@) == scored_abstracts(
                policy,
                *retrieval,
                now,
                found.take(index as int),
            ),
        decreases candidates.len() - index,
    {
        let candidate = &candidates[index];
        let ghost before = order::views(ranked@);
        proof {
            assert(found.take(index + 1).drop_last() =~= found.take(index as int));
            assert(found.take(index + 1).last() == candidate@);
        }
        if let Some(node) = &candidate.node {
            if !candidate.reference.score.is_less(&retrieval.similarity_threshold.abstract_nodes) {
                let score = policy.score_abstract(candidate.reference.score, node, now);
                let entry = RankedAbstractNode { node: node.clone(), score };
                ranked.push(entry);
                assert(order::views(ranked@) =~= before.push(entry@));
            }
        }
        index = index + 1;
    }
    assert(found.take(found.len() as int) =~= found);
    let mut result = sort_by(ranked, &AbstractByScore);
    proof {
        assert(order::order_of::<RankedAbstractNode, AbstractByScore>(&AbstractByScore) =~= |
            left: RankedAbstract,
            right: RankedAbstract,
        | right.score.less(left.score));
    }
    let ghost all = order::views(result@);
    result.truncate(budget);
    assert(order::views(result@) =~= first(all, budget as int));
    result
}

/// Activates memories: of what the two searches found, the best of each kind.
pub fn activate<P: ScoringPolicy + ?Sized>(
    policy: &P,
    config: &EngineConfig,
    now: Timestamp,
    raw_candidates: Vec<RawCandidate>,
    abstract_candidates: Vec<AbstractCandidate>,
) -> (memory: ActivatedMemory)
    requires
        config.memory.activation.window_fits(),
    ensures
        memory@ == (Memory {
            raw_nodes: best_raws(
                policy,
                config.memory.retrieval,
                now,
                order::views(raw_candidates@),
                config.memory.activation.raw_window(),
            ),
            abstract_nodes: best_abstracts(
                policy,
                config.memory.retrieval,
                now,
                order::views(abstract_candidates@),
                config.memory.activation.abstract_window(),
            ),
        }),
{
    let window = config.memory.activation.window();
    let retrieval = &config.memory.retrieval;
    ActivatedMemory {
        raw_nodes: select_raw(policy, retrieval, now, raw_candidates, window.raw_budget),
        abstract_nodes: select_abstract(
            policy,
            retrieval,
            now,
            abstract_candidates,
            window.abstract_budget,
        ),
    }
}

/// Whether the scores of raw memories never rise.
pub open spec fn never_rises(memories: Seq<RankedRaw>) -> bool {
    forall|i: int, j: int|
        0 <= i < j < memories.len() ==> !(#[trigger] memories[i]).score.less(
            (#[trigger] memories[j]).score,
        )
}

/// Whether the policy scores the candidates that exist as numbers.
pub open spec fn raws_score_as_numbers<P: ScoringPolicy + ?Sized>(
    policy: &P,
    now: Timestamp,
    candidates: Seq<FoundRaw>,
) -> bool {
    forall|k: int|
        0 <= k < candidates.len() && (#[trigger] candidates[k]).node is Some ==> !policy.raw_score(
            candidates[k].similarity,
            candidates[k].node->0,
            now,
        ).not_a_number()
}

proof fn scored_raws_are_numbers<P: ScoringPolicy + ?Sized>(
    policy: &P,
    retrieval: RetrievalConfig,
    now: Timestamp,
    candidates: Seq<FoundRaw>,
)
    requires
        raws_score_as_numbers(policy, now, candidates),
    ensures
        order::all_are(
            |memory: RankedRaw| !memory.score.not_a_number(),
            scored_raws(policy, retrieval, now, candidates),
        ),
    decreases candidates.len(),
{
    if candidates.len() > 0 {
        assert(raws_score_as_numbers(policy, now, candidates.drop_last())) by {
            assert forall|k: int|
                0 <= k < candidates.drop_last().len() && (
                #[trigger] candidates.drop_last()[k]).node is Some implies !policy.raw_score(
                candidates.drop_last()[k].similarity,
                candidates.drop_last()[k].node->0,
                now,
            ).not_a_number() by {
                assert(candidates[k] == candidates.drop_last()[k]);
            }
        }
        assert(candidates[candidates.len() - 1] == candidates.last());
        scored_raws_are_numbers(policy, retrieval, now, candidates.drop_last());
    }
}

/// Activated raw memories stay within their budget and, where scores are
/// numbers, stand in order of descending score.
pub proof fn activated_raws_are_ranked<P: ScoringPolicy + ?Sized>(
    policy: &P,
    retrieval: RetrievalConfig,
    now: Timestamp,
    candidates: Seq<FoundRaw>,
    budget: int,
)
    requires
        0 <= budget,
        raws_score_as_numbers(policy, now, candidates),
    ensures
        best_raws(policy, retrieval, now, candidates, budget).len() <= budget,
        never_rises(best_raws(policy, retrieval, now, candidates, budget)),
{
    let kind = |memory: RankedRaw| !memory.score.not_a_number();
    let before = |left: RankedRaw, right: RankedRaw| right.score.less(left.score);
    let scored = scored_raws(policy, retrieval, now, candidates);
    scored_raws_are_numbers(policy, retrieval, now, candidates);
    assert(order::is_weak_order(before, kind));
    order::ordered_is_ordered(before, kind, scored);
    let all = order::ordered(before, scored);
    let best = first(all, budget);
    assert forall|i: int, j: int| 0 <= i < j < best.len() implies !(#[trigger] best[i]).score.less(
        (#[trigger] best[j]).score,
    ) by {
        assert(best[i] == all[i] && best[j] == all[j]);
        assert(!before(all[j], all[i]));
    }
}

/// Whether a raw memory comes from a candidate that was similar enough.
pub open spec fn is_admitted<P: ScoringPolicy + ?Sized>(
    policy: &P,
    retrieval: RetrievalConfig,
    now: Timestamp,
    candidates: Seq<FoundRaw>,
    memory: RankedRaw,
) -> bool {
    exists|k: int|
        #![trigger candidates[k]]
        0 <= k < candidates.len() && candidates[k].node == Some(memory.node)
            && !candidates[k].similarity.less(needed_similarity(retrieval, memory.node, now))
            && memory.score == policy.raw_score(candidates[k].similarity, memory.node, now)
}

proof fn scored_raws_are_admitted<P: ScoringPolicy + ?Sized>(
    policy: &P,
    retrieval: RetrievalConfig,
    now: Timestamp,
    candidates: Seq<FoundRaw>,
    memory: RankedRaw,
)
    requires
        scored_raws(policy, retrieval, now, candidates).contains(memory),
    ensures
        is_admitted(policy, retrieval, now, candidates, memory),
    decreases candidates.len(),
{
    let earlier = scored_raws(policy, retrieval, now, candidates.drop_last());
    if earlier.contains(memory) {
        scored_raws_are_admitted(policy, retrieval, now, candidates.drop_last(), memory);
        let k = choose|k: int|
            #![trigger candidates.drop_last()[k]]
            0 <= k < candidates.drop_last().len() && candidates.drop_last()[k].node == Some(
                memory.node,
            ) && !candidates.drop_last()[k].similarity.less(
                needed_similarity(retrieval, memory.node, now),
            ) && memory.score == policy.raw_score(
                candidates.drop_last()[k].similarity,
                memory.node,
                now,
            );
        assert(candidates[k] == candidates.drop_last()[k]);
    } else {
        let all = scored_raws(policy, retrieval, now, candidates);
        let m = choose|m: int| 0 <= m < all.len() && all[m] == memory;
        if m < earlier.len() {
            assert(earlier[m] == memory);
        }
        assert(candidates[candidates.len() - 1] == candidates.last());
    }
}

/// Every activated raw memory was found with at least the similarity it needs.
pub proof fn activated_raws_are_similar<P: ScoringPolicy + ?Sized>(
    policy: &P,
    retrieval: RetrievalConfig,
    now: Timestamp,
    candidates: Seq<FoundRaw>,
    budget: int,
    memory: RankedRaw,
)
    requires
        0 <= budget,
        best_raws(policy, retrieval, now, candidates, budget).contains(memory),
    ensures
        is_admitted(policy, retrieval, now, candidates, memory),
{
    broadcast use vstd::seq_lib::group_to_multiset_ensures;

    let before = |left: RankedRaw, right: RankedRaw| right.score.less(left.score);
    let scored = scored_raws(policy, retrieval, now, candidates);
    let all = order::ordered(before, scored);
    let best = first(all, budget);
    let m = choose|m: int| 0 <= m < best.len() && best[m] == memory;
    assert(all[m] == memory);
    order::ordered_keeps_values(before, scored);
    assert(all.to_multiset().count(memory) > 0);
    assert(scored.contains(memory));
    scored_raws_are_admitted(policy, retrieval, now, candidates, memory);
}

/// Whether the scores of abstract memories never rise.
pub open spec fn abstracts_never_rise(memories: Seq<RankedAbstract>) -> bool {
    forall|i: int, j: int|
        0 <= i < j < memories.len() ==> !(#[trigger] memories[i]).score.less(
            (#[trigger] memories[j]).score,
        )
}

/// Whether the policy scores the candidates that exist as numbers.
pub open spec fn abstracts_score_as_numbers<P: ScoringPolicy + ?Sized>(
    policy: &P,
    now: Timestamp,
    candidates: Seq<FoundAbstract>,
) -> bool {
    forall|k: int|
        0 <= k < candidates.len() && (#[trigger] candidates[k]).node is Some ==> !policy.abstract_score(
            candidates[k].similarity,
            candidates[k].node->0,
            now,
        ).not_a_number()
}

proof fn scored_abstracts_are_numbers<P: ScoringPolicy + ?Sized>(
    policy: &P,
    retrieval: RetrievalConfig,
    now: Timestamp,
    candidates: Seq<FoundAbstract>,
)
    requires
        abstracts_score_as_numbers(policy, now, candidates),
    ensures
        order::all_are(
            |memory: RankedAbstract| !memory.score.not_a_number(),
            scored_abstracts(policy, retrieval, now, candidates),
        ),
    decreases candidates.len(),
{
    if candidates.len() > 0 {
        assert(abstracts_score_as_numbers(policy, now, candidates.drop_last())) by {
            assert forall|k: int|
                0 <= k < candidates.drop_last().len() && (
                #[trigger] candidates.drop_last()[k]).node is Some implies !policy.abstract_score(
                candidates.drop_last()[k].similarity,
                candidates.drop_last()[k].node->0,
                now,
            ).not_a_number() by {
                assert(candidates[k] == candidates.drop_last()[k]);
            }
        }
        assert(candidates[candidates.len() - 1] == candidates.last());
        scored_abstracts_are_numbers(policy, retrieval, now, candidates.drop_last());
    }
}

/// Activated abstract memories stay within their budget and, where scores are
/// numbers, stand in order of descending score.
pub proof fn activated_abstracts_are_ranked<P: ScoringPolicy + ?Sized>(
    policy: &P,
    retrieval: RetrievalConfig,
    now: Timestamp,
    candidates: Seq<FoundAbstract>,
    budget: int,
)
    requires
        0 <= budget,
        abstracts_score_as_numbers(policy, now, candidates),
    ensures
        best_abstracts(policy, retrieval, now, candidates, budget).len() <= budget,
        abstracts_never_rise(best_abstracts(policy, retrieval, now, candidates, budget)),
{
    let kind = |memory: RankedAbstract| !memory.score.not_a_number();
    let before = |left: RankedAbstract, right: RankedAbstract| right.score.less(left.score);
    let scored = scored_abstracts(policy, retrieval, now, candidates);
    scored_abstracts_are_numbers(policy, retrieval, now, candidates);
    assert(order::is_weak_order(before, kind));
    order::ordered_is_ordered(before, kind, scored);
    let all = order::ordered(before, scored);
    let best = first(all, budget);
    assert forall|i: int, j: int| 0 <= i < j < best.len() implies !(#[trigger] best[i]).score.less(
        (#[trigger] best[j]).score,
    ) by {
        assert(best[i] == all[i] && best[j] == all[j]);
        assert(!before(all[j], all[i]));
    }
}

/// Whether an abstract memory comes from a candidate that was similar enough.
pub open spec fn is_similar_abstract<P: ScoringPolicy + ?Sized>(
    policy: &P,
    retrieval: RetrievalConfig,
    now: Timestamp,
    candidates: Seq<FoundAbstract>,
    memory: RankedAbstract,
) -> bool {
    exists|k: int|
        #![trigger candidates[k]]
        0 <= k < candidates.len() && candidates[k].node == Some(memory.node)
            && !candidates[k].similarity.less(retrieval.similarity_threshold.abstract_nodes)
            && memory.score == policy.abstract_score(candidates[k].similarity, memory.node, now)
}

proof fn scored_abstracts_are_similar<P: ScoringPolicy + ?Sized>(
    policy: &P,
    retrieval: RetrievalConfig,
    now: Timestamp,
    candidates: Seq<FoundAbstract>,
    memory: RankedAbstract,
)
    requires
        scored_abstracts(policy, retrieval, now, candidates).contains(memory),
    ensures
        is_similar_abstract(policy, retrieval, now, candidates, memory),
    decreases candidates.len(),
{
    let earlier = scored_abstracts(policy, retrieval, now, candidates.drop_last());
    if earlier.contains(memory) {
        scored_abstracts_are_similar(policy, retrieval, now, candidates.drop_last(), memory);
        let k = choose|k: int|
            #![trigger candidates.drop_last()[k]]
            0 <= k < candidates.drop_last().len() && candidates.drop_last()[k].node == Some(
                memory.node,
            ) && !candidates.drop_last()[k].similarity.less(
                retrieval.similarity_threshold.abstract_nodes,
            ) && memory.score == policy.abstract_score(
                candidates.drop_last()[k].similarity,
                memory.node,
                now,
            );
        assert(candidates[k] == candidates.drop_last()[k]);
    } else {
        let all = scored_abstracts(policy, retrieval, now, candidates);
        let m = choose|m: int| 0 <= m < all.len() && all[m] == memory;
        if m < earlier.len() {
            assert(earlier[m] == memory);
        }
        assert(candidates[candidates.len() - 1] == candidates.last());
    }
}

/// Every activated abstract memory was found with at least the similarity that
/// abstract memories need.
pub proof fn activated_abstracts_are_similar<P: ScoringPolicy + ?Sized>(
    policy: &P,
    retrieval: RetrievalConfig,
    now: Timestamp,
    candidates: Seq<FoundAbstract>,
    budget: int,
    memory: RankedAbstract,
)
    requires
        0 <= budget,
        best_abstracts(policy, retrieval, now, candidates, budget).contains(memory),
    ensures
        is_similar_abstract(policy, retrieval, now, candidates, memory),
{
    broadcast use vstd::seq_lib::group_to_multiset_ensures;

    let before = |left: RankedAbstract, right: RankedAbstract| right.score.less(left.score);
    let scored = scored_abstracts(policy, retrieval, now, candidates);
    let all = order::ordered(before, scored);
    let best = first(all, budget);
    let m = choose|m: int| 0 <= m < best.len() && best[m] == memory;
    assert(all[m] == memory);
    order::ordered_keeps_values(before, scored);
    assert(all.to_multiset().count(memory) > 0);
    assert(scored.contains(memory));
    scored_abstracts_are_similar(policy, retrieval, now, candidates, memory);
}

/// The raw memories that may be activated, in the order in which they were
/// found: those that exist and were found with the similarity that they need.
spec fn eligible_raws<P: ScoringPolicy + ?Sized>(
    policy: &P,
    retrieval: RetrievalConfig,
    now: Timestamp,
    candidates: Seq<FoundRaw>,
) -> Seq<RankedRaw> {
    candidates.filter(
        |found: FoundRaw|
            match found.node {
                Some(node) => !found.similarity.less(
                    if node.distillation_state != DistillationState::Distilled
                        && node.overflow.was_pushed_out_of_session
                        && node.overflow.relax_retrieval_until is Some && now.before(
                        node.overflow.relax_retrieval_until->0,
                    ) {
                        retrieval.relaxed_threshold_for_pushed_raw
                    } else {
                        retrieval.similarity_threshold.raw
                    },
                ),
                None => false,
            },
    ).map_values(
        |found: FoundRaw|
            RankedRaw {
                node: found.node->0,
                score: policy.raw_score(found.similarity, found.node->0, now),
            },
    )
}

proof fn scored_raws_are_eligible<P: ScoringPolicy + ?Sized>(
    policy: &P,
    retrieval: RetrievalConfig,
    now: Timestamp,
    candidates: Seq<FoundRaw>,
)
    ensures
        scored_raws(policy, retrieval, now, candidates) == eligible_raws(
            policy,
            retrieval,
            now,
            candidates,
        ),
    decreases candidates.len(),
{
    reveal(Seq::filter);
    if candidates.len() > 0 {
        scored_raws_are_eligible(policy, retrieval, now, candidates.drop_last());
    }
    assert(scored_raws(policy, retrieval, now, candidates) =~= eligible_raws(
        policy,
        retrieval,
        now,
        candidates,
    ));
}

/// Activation misses nothing: of the raw memories that were found with the
/// similarity that they need, as many are activated as the budget allows. All of
/// them are, in whatever order, where they stay within it; and where scores are
/// numbers, none that is left out has a higher score than one that is activated.
pub proof fn eligible_raws_are_activated<P: ScoringPolicy + ?Sized>(
    policy: &P,
    retrieval: RetrievalConfig,
    now: Timestamp,
    candidates: Seq<FoundRaw>,
    budget: int,
)
    requires
        0 <= budget,
    ensures
        ({
            let best = best_raws(policy, retrieval, now, candidates, budget);
            let eligible = candidates.filter(
                |found: FoundRaw|
                    match found.node {
                        Some(node) => !found.similarity.less(
                            if node.distillation_state != DistillationState::Distilled
                                && node.overflow.was_pushed_out_of_session
                                && node.overflow.relax_retrieval_until is Some && now.before(
                                node.overflow.relax_retrieval_until->0,
                            ) {
                                retrieval.relaxed_threshold_for_pushed_raw
                            } else {
                                retrieval.similarity_threshold.raw
                            },
                        ),
                        None => false,
                    },
            ).map_values(
                |found: FoundRaw|
                    RankedRaw {
                        node: found.node->0,
                        score: policy.raw_score(found.similarity, found.node->0, now),
                    },
            );
            &&& best.len() == if budget < eligible.len() {
                budget
            } else {
                eligible.len() as int
            }
            &&& best.to_multiset().subset_of(eligible.to_multiset())
            &&& raws_score_as_numbers(policy, now, candidates) ==> order::are_first_of(
                |left: RankedRaw, right: RankedRaw| right.score.less(left.score),
                best,
                eligible,
                budget,
            )
        }),
{
    broadcast use vstd::seq_lib::group_to_multiset_ensures;

    let before = |left: RankedRaw, right: RankedRaw| right.score.less(left.score);
    let kind = |memory: RankedRaw| !memory.score.not_a_number();
    let eligible = eligible_raws(policy, retrieval, now, candidates);
    let best = best_raws(policy, retrieval, now, candidates, budget);
    scored_raws_are_eligible(policy, retrieval, now, candidates);
    order::ordered_keeps_values(before, eligible);
    let all = order::ordered(before, eligible);
    assert(best =~= all.take(best.len() as int));
    let left = all.skip(best.len() as int);
    assert(best + left =~= all);
    vstd::seq_lib::lemma_multiset_commutative(best, left);
    if raws_score_as_numbers(policy, now, candidates) {
        scored_raws_are_numbers(policy, retrieval, now, candidates);
        assert(order::is_weak_order(before, kind));
        order::sorting_brings_the_first(before, kind, eligible, budget);
    }
}

/// The abstract memories that may be activated, in the order in which they were
/// found: those that exist and were found with the similarity that they need.
spec fn eligible_abstracts<P: ScoringPolicy + ?Sized>(
    policy: &P,
    retrieval: RetrievalConfig,
    now: Timestamp,
    candidates: Seq<FoundAbstract>,
) -> Seq<RankedAbstract> {
    candidates.filter(
        |found: FoundAbstract|
            match found.node {
                Some(node) => !found.similarity.less(
                    retrieval.similarity_threshold.abstract_nodes,
                ),
                None => false,
            },
    ).map_values(
        |found: FoundAbstract|
            RankedAbstract {
                node: found.node->0,
                score: policy.abstract_score(found.similarity, found.node->0, now),
            },
    )
}

proof fn scored_abstracts_are_eligible<P: ScoringPolicy + ?Sized>(
    policy: &P,
    retrieval: RetrievalConfig,
    now: Timestamp,
    candidates: Seq<FoundAbstract>,
)
    ensures
        scored_abstracts(policy, retrieval, now, candidates) == eligible_abstracts(
            policy,
            retrieval,
            now,
            candidates,
        ),
    decreases candidates.len(),
{
    reveal(Seq::filter);
    if candidates.len() > 0 {
        scored_abstracts_are_eligible(policy, retrieval, now, candidates.drop_last());
    }
    assert(scored_abstracts(policy, retrieval, now, candidates) =~= eligible_abstracts(
        policy,
        retrieval,
        now,
        candidates,
    ));
}

/// Activation misses nothing: of the abstract memories that were found with the
/// similarity that they need, as many are activated as the budget allows. All of
/// them are, in whatever order, where they stay within it; and where scores are
/// numbers, none that is left out has a higher score than one that is activated.
pub proof fn eligible_abstracts_are_activated<P: ScoringPolicy + ?Sized>(
    policy: &P,
    retrieval: RetrievalConfig,
    now: Timestamp,
    candidates: Seq<FoundAbstract>,
    budget: int,
)
    requires
        0 <= budget,
    ensures
        ({
            let best = best_abstracts(policy, retrieval, now, candidates, budget);
            let eligible = candidates.filter(
                |found: FoundAbstract|
                    match found.node {
                        Some(node) => !found.similarity.less(
                            retrieval.similarity_threshold.abstract_nodes,
                        ),
                        None => false,
                    },
            ).map_values(
                |found: FoundAbstract|
                    RankedAbstract {
                        node: found.node->0,
                        score: policy.abstract_score(found.similarity, found.node->0, now),
                    },
            );
            &&& best.len() == if budget < eligible.len() {
                budget
            } else {
                eligible.len() as int
            }
            &&& best.to_multiset().subset_of(eligible.to_multiset())
            &&& abstracts_score_as_numbers(policy, now, candidates) ==> order::are_first_of(
                |left: RankedAbstract, right: RankedAbstract| right.score.less(left.score),
                best,
                eligible,
                budget,
            )
        }),
{
    broadcast use vstd::seq_lib::group_to_multiset_ensures;

    let before = |left: RankedAbstract, right: RankedAbstract| right.score.less(left.score);
    let kind = |memory: RankedAbstract| !memory.score.not_a_number();
    let eligible = eligible_abstracts(policy, retrieval, now, candidates);
    let best = best_abstracts(policy, retrieval, now, candidates, budget);
    scored_abstracts_are_eligible(policy, retrieval, now, candidates);
    order::ordered_keeps_values(before, eligible);
    let all = order::ordered(before, eligible);
    assert(best =~= all.take(best.len() as int));
    let left = all.skip(best.len() as int);
    assert(best + left =~= all);
    vstd::seq_lib::lemma_multiset_commutative(best, left);
    if abstracts_score_as_numbers(policy, now, candidates) {
        scored_abstracts_are_numbers(policy, retrieval, now, candidates);
        assert(order::is_weak_order(before, kind));
        order::sorting_brings_the_first(before, kind, eligible, budget);
    }
}

/// Raw memories get their part of the places, rounded down, and abstract ones the
/// rest, each at least one; twice as many are searched.
pub proof fn windows_share_the_places(config: ActivationConfig)
    ensures
        ({
            let total = if config.top_k_total < 2 {
                2
            } else {
                config.top_k_total as int
            };
            let raw = if config.target_ratio.raw < 1 {
                1
            } else {
                config.target_ratio.raw as int
            };
            let other = if config.target_ratio.abstract_nodes < 1 {
                1
            } else {
                config.target_ratio.abstract_nodes as int
            };
            let part = total * raw / (raw + other);
            &&& config.window_total() == total
            &&& config.raw_window() == if part < 1 {
                1
            } else {
                part
            }
            &&& config.abstract_window() == if total - config.raw_window() < 1 {
                1
            } else {
                total - config.raw_window()
            }
            &&& config.window_fits() <==> raw + other <= usize::MAX && total * raw <= usize::MAX
                && total * 2 <= usize::MAX
        }),
{
}

/// Where all raw memories that may be activated stay within the budget, those of
/// equal score stand in the order in which they were found.
pub proof fn equal_raws_keep_their_order<P: ScoringPolicy + ?Sized>(
    policy: &P,
    retrieval: RetrievalConfig,
    now: Timestamp,
    candidates: Seq<FoundRaw>,
    budget: int,
    score: Float32,
)
    requires
        budget >= candidates.len(),
    ensures
        order::those(
            |memory: RankedRaw| memory.score == score,
            best_raws(policy, retrieval, now, candidates, budget),
        ) == order::those(
            |memory: RankedRaw| memory.score == score,
            candidates.filter(
                |found: FoundRaw|
                    match found.node {
                        Some(node) => !found.similarity.less(
                            if node.distillation_state != DistillationState::Distilled
                                && node.overflow.was_pushed_out_of_session
                                && node.overflow.relax_retrieval_until is Some && now.before(
                                node.overflow.relax_retrieval_until->0,
                            ) {
                                retrieval.relaxed_threshold_for_pushed_raw
                            } else {
                                retrieval.similarity_threshold.raw
                            },
                        ),
                        None => false,
                    },
            ).map_values(
                |found: FoundRaw|
                    RankedRaw {
                        node: found.node->0,
                        score: policy.raw_score(found.similarity, found.node->0, now),
                    },
            ),
        ),
{
    let before = |left: RankedRaw, right: RankedRaw| right.score.less(left.score);
    let kind = |memory: RankedRaw| memory.score == score;
    let scored = scored_raws(policy, retrieval, now, candidates);
    scored_raws_are_fewer(policy, retrieval, now, candidates);
    scored_raws_are_eligible(policy, retrieval, now, candidates);
    order::ordered_keeps_values(before, scored);
    order::ordered_is_stable(before, kind, scored);
}

proof fn scored_raws_are_fewer<P: ScoringPolicy + ?Sized>(
    policy: &P,
    retrieval: RetrievalConfig,
    now: Timestamp,
    candidates: Seq<FoundRaw>,
)
    ensures
        scored_raws(policy, retrieval, now, candidates).len() <= candidates.len(),
    decreases candidates.len(),
{
    if candidates.len() > 0 {
        scored_raws_are_fewer(policy, retrieval, now, candidates.drop_last());
    }
}

/// Where all abstract memories that may be activated stay within the budget, those of
/// equal score stand in the order in which they were found.
pub proof fn equal_abstracts_keep_their_order<P: ScoringPolicy + ?Sized>(
    policy: &P,
    retrieval: RetrievalConfig,
    now: Timestamp,
    candidates: Seq<FoundAbstract>,
    budget: int,
    score: Float32,
)
    requires
        budget >= candidates.len(),
    ensures
        order::those(
            |memory: RankedAbstract| memory.score == score,
            best_abstracts(policy, retrieval, now, candidates, budget),
        ) == order::those(
            |memory: RankedAbstract| memory.score == score,
            candidates.filter(
                |found: FoundAbstract|
                    match found.node {
                        Some(node) => !found.similarity.less(
                            retrieval.similarity_threshold.abstract_nodes,
                        ),
                        None => false,
                    },
            ).map_values(
                |found: FoundAbstract|
                    RankedAbstract {
                        node: found.node->0,
                        score: policy.abstract_score(found.similarity, found.node->0, now),
                    },
            ),
        ),
{
    let before = |left: RankedAbstract, right: RankedAbstract| right.score.less(left.score);
    let kind = |memory: RankedAbstract| memory.score == score;
    let scored = scored_abstracts(policy, retrieval, now, candidates);
    scored_abstracts_are_fewer(policy, retrieval, now, candidates);
    scored_abstracts_are_eligible(policy, retrieval, now, candidates);
    order::ordered_keeps_values(before, scored);
    order::ordered_is_stable(before, kind, scored);
}

proof fn scored_abstracts_are_fewer<P: ScoringPolicy + ?Sized>(
    policy: &P,
    retrieval: RetrievalConfig,
    now: Timestamp,
    candidates: Seq<FoundAbstract>,
)
    ensures
        scored_abstracts(policy, retrieval, now, candidates).len() <= candidates.len(),
    decreases candidates.len(),
{
    if candidates.len() > 0 {
        scored_abstracts_are_fewer(policy, retrieval, now, candidates.drop_last());
    }
}

} // verus!
