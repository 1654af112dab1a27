//! Embeddings by node, and the ranking of what a search finds.
use vstd::prelude::*;

use crate::float32::Float32;
use crate::ids::{AbstractNodeId, RawNodeId, SessionId};
use crate::model::embedding::Embedding;
use crate::order;
use crate::order::{sort_by, Order};
use crate::storage::records::{ScoredAbstractRef, ScoredRawRef};
use crate::table;
use crate::table::{Key, Pair, Table};

verus! {

/// Whether an entry belongs to what a search asks for: the entries of the
/// session it names, or those of no session where it names none.
pub fn entry_matches_session_filter(entry: Option<SessionId>, query: Option<SessionId>) -> (result:
    bool)
    ensures
        result == (entry == query),
{
    match (entry, query) {
        (None, None) => true,
        (Some(stored), Some(requested)) => stored == requested,
        _ => false,
    }
}

/// An embedding with the session that it was indexed for.
#[derive(Debug, PartialEq, Eq)]
pub struct EmbeddingEntry {
    pub embedding: Embedding,
    pub session_id: Option<SessionId>,
}

/// An embedding with its session, as a mathematical value.
#[verifier::ext_equal]
pub struct Vector {
    pub components: Seq<Float32>,
    pub session_id: Option<SessionId>,
}

impl View for EmbeddingEntry {
    type V = Vector;

    open spec fn view(&self) -> Vector {
        Vector { components: self.embedding.0@, session_id: self.session_id }
    }
}

/// A node whose embedding a search compares.
#[derive(Debug, PartialEq, Eq)]
pub struct Candidate<K> {
    pub id: K,
    pub embedding: Embedding,
}

/// A node whose embedding a search compares, as a mathematical value.
#[verifier::ext_equal]
pub struct Compared<K> {
    pub id: K,
    pub components: Seq<Float32>,
}

impl<K: View> View for Candidate<K> {
    type V = Compared<K::V>;

    open spec fn view(&self) -> Compared<K::V> {
        Compared { id: self.id@, components: self.embedding.0@ }
    }
}

/// The entries that a search compares, in the order of the table.
pub open spec fn eligible<K>(entries: Seq<Pair<K, Vector>>, query: Option<SessionId>) -> Seq<
    Compared<K>,
>
    decreases entries.len(),
{
    if entries.len() == 0 {
        Seq::empty()
    } else {
        let rest = eligible(entries.drop_last(), query);
        let entry = entries.last();
        if entry.value.session_id == query {
            rest.push(Compared { id: entry.key, components: entry.value.components })
        } else {
            rest
        }
    }
}

/// Collects the entries that a search compares.
fn candidates<K: Key + Copy>(entries: &Table<K, EmbeddingEntry>, query: Option<SessionId>) -> (result:
    Vec<Candidate<K>>)
    ensures
        order::views(result@) == eligible(entries@, query),
{
    let ghost all = entries@;
    let mut result: Vec<Candidate<K>> = Vec::new();
    let mut index: usize = 0;
    assert(all.take(0) =~= Seq::<Pair<K::V, Vector>>::empty());
    assert(order::views(result@) =~= Seq::<Compared<K::V>>::empty());
    while index < entries.entries.len()
        invariant
            index <= entries.entries.len(),
            all == entries@,
            order::views(result@) == eligible(all.take(index as int), query),
        decreases entries.entries.len() - index,
    {
        let ghost before = order::views(result@);
        let entry = &entries.entries[index];
        proof {
            assert(all.take(index + 1).drop_last() =~= all.take(index as int));
            assert(all.take(index + 1).last() == entry@);
        }
        if entry_matches_session_filter(entry.value.session_id, query) {
            let candidate = Candidate { id: entry.key, embedding: entry.value.embedding.clone() };
            result.push(candidate);
            assert(order::views(result@) =~= before.push(candidate@));
        }
        index = index + 1;
    }
    assert(all.take(all.len() as int) =~= all);
    result
}

/// Embeddings held in memory.
#[derive(Debug)]
pub struct InMemoryVectorIndex {
    pub raw_embeddings: Table<RawNodeId, EmbeddingEntry>,
    pub abstract_embeddings: Table<AbstractNodeId, EmbeddingEntry>,
}

impl Default for InMemoryVectorIndex {
    fn default() -> (index: Self)
        ensures
            index.raw_embeddings@ == Seq::<Pair<RawNodeId, Vector>>::empty(),
            index.abstract_embeddings@ == Seq::<Pair<AbstractNodeId, Vector>>::empty(),
    {
        InMemoryVectorIndex { raw_embeddings: Table::new(), abstract_embeddings: Table::new() }
    }
}

impl InMemoryVectorIndex {
    /// Indexes the embedding of a raw node for no session.
    pub fn index_raw(&mut self, id: RawNodeId, embedding: Embedding)
        ensures
            final(self).raw_embeddings@ == table::stored(
                old(self).raw_embeddings@,
                id,
                (Vector { components: embedding.0@, session_id: None }),
            ),
            final(self).abstract_embeddings@ == old(self).abstract_embeddings@,
    {
        self.index_raw_with_session(id, embedding, None);
    }

    /// Indexes the embedding of an abstract node for no session.
    pub fn index_abstract(&mut self, id: AbstractNodeId, embedding: Embedding)
        ensures
            final(self).abstract_embeddings@ == table::stored(
                old(self).abstract_embeddings@,
                id,
                (Vector { components: embedding.0@, session_id: None }),
            ),
            final(self).raw_embeddings@ == old(self).raw_embeddings@,
    {
        self.index_abstract_with_session(id, embedding, None);
    }

    /// Indexes the embedding of a raw node in place of the one it had.
    pub fn index_raw_with_session(
        &mut self,
        id: RawNodeId,
        embedding: Embedding,
        session_id: Option<SessionId>,
    )
        ensures
            final(self).raw_embeddings@ == table::stored(
                old(self).raw_embeddings@,
                id,
                (Vector { components: embedding.0@, session_id }),
            ),
            final(self).abstract_embeddings@ == old(self).abstract_embeddings@,
    {
        self.raw_embeddings.insert(id, EmbeddingEntry { embedding, session_id });
    }

    /// Indexes the embedding of an abstract node in place of the one it had.
    pub fn index_abstract_with_session(
        &mut self,
        id: AbstractNodeId,
        embedding: Embedding,
        session_id: Option<SessionId>,
    )
        ensures
            final(self).abstract_embeddings@ == table::stored(
                old(self).abstract_embeddings@,
                id,
                (Vector { components: embedding.0@, session_id }),
            ),
            final(self).raw_embeddings@ == old(self).raw_embeddings@,
    {
        self.abstract_embeddings.insert(id, EmbeddingEntry { embedding, session_id });
    }

    /// The raw nodes whose embeddings a search compares.
    pub fn raw_candidates(&self, session_id: Option<SessionId>) -> (result: Vec<
        Candidate<RawNodeId>,
    >)
        ensures
            order::views(result@) == eligible(self.raw_embeddings@, session_id),
    {
        candidates(&self.raw_embeddings, session_id)
    }

    /// The abstract nodes whose embeddings a search compares.
    pub fn abstract_candidates(&self, session_id: Option<SessionId>) -> (result: Vec<
        Candidate<AbstractNodeId>,
    >)
        ensures
            order::views(result@) == eligible(self.abstract_embeddings@, session_id),
    {
        candidates(&self.abstract_embeddings, session_id)
    }
}

/// Whether one score with its identifier ranks above another: the higher score,
/// or, of two scores of which none is higher, the lower identifier.
pub open spec fn ranks_above(
    left: Float32,
    left_bits: u128,
    right: Float32,
    right_bits: u128,
) -> bool {
    right.less(left) || (!left.less(right) && left_bits < right_bits)
}

/// The order of scored raw nodes as a function.
pub open spec fn raw_ranking() -> spec_fn(ScoredRawRef, ScoredRawRef) -> bool {
    |left: ScoredRawRef, right: ScoredRawRef|
        ranks_above(left.score, left.id.0.bits, right.score, right.id.0.bits)
}

/// The order of scored abstract nodes as a function.
pub open spec fn abstract_ranking() -> spec_fn(ScoredAbstractRef, ScoredAbstractRef) -> bool {
    |left: ScoredAbstractRef, right: ScoredAbstractRef|
        ranks_above(left.score, left.id.0.bits, right.score, right.id.0.bits)
}

/// Ranks what a search found.
pub struct ScoreOrder;

impl Order<ScoredRawRef> for ScoreOrder {
    open spec fn before(&self, left: ScoredRawRef, right: ScoredRawRef) -> bool {
        ranks_above(left.score, left.id.0.bits, right.score, right.id.0.bits)
    }

    fn is_before(&self, left: &ScoredRawRef, right: &ScoredRawRef) -> (result: bool) {
        right.score.is_less(&left.score) || (!left.score.is_less(&right.score) && left.id.0.bits
            < right.id.0.bits)
    }
}

impl Order<ScoredAbstractRef> for ScoreOrder {
    open spec fn before(&self, left: ScoredAbstractRef, right: ScoredAbstractRef) -> bool {
        ranks_above(left.score, left.id.0.bits, right.score, right.id.0.bits)
    }

    fn is_before(&self, left: &ScoredAbstractRef, right: &ScoredAbstractRef) -> (result: bool) {
        right.score.is_less(&left.score) || (!left.score.is_less(&right.score) && left.id.0.bits
            < right.id.0.bits)
    }
}

/// The first values of a sequence, at most a number of them.
pub open spec fn first<T>(items: Seq<T>, limit: nat) -> Seq<T> {
    if limit < items.len() {
        items.take(limit as int)
    } else {
        items
    }
}

/// Ranks the raw nodes that a search found and keeps the best.
pub fn rank_raw(scored: Vec<ScoredRawRef>, top_k: usize) -> (result: Vec<ScoredRawRef>)
    ensures
        result@ == first(order::ordered(raw_ranking(), scored@), top_k as nat),
{
    let ghost given = scored@;
    assert(order::views(scored@) =~= given);
    let mut ranked = sort_by(scored, &ScoreOrder);
    assert(order::order_of::<ScoredRawRef, ScoreOrder>(&ScoreOrder) =~= raw_ranking());
    assert(order::views(ranked@) =~= ranked@);
    if top_k < ranked.len() {
        ranked.truncate(top_k);
    }
    ranked
}

/// Ranks the abstract nodes that a search found and keeps the best.
pub fn rank_abstract(scored: Vec<ScoredAbstractRef>, top_k: usize) -> (result: Vec<
    ScoredAbstractRef,
>)
    ensures
        result@ == first(order::ordered(abstract_ranking(), scored@), top_k as nat),
{
    let ghost given = scored@;
    assert(order::views(scored@) =~= given);
    let mut ranked = sort_by(scored, &ScoreOrder);
    assert(order::order_of::<ScoredAbstractRef, ScoreOrder>(&ScoreOrder) =~= abstract_ranking());
    assert(order::views(ranked@) =~= ranked@);
    if top_k < ranked.len() {
        ranked.truncate(top_k);
    }
    ranked
}

/// Ranking is a strict order on scores that are numbers.
pub proof fn ranking_is_weak(
    a: Float32,
    a_bits: u128,
    b: Float32,
    b_bits: u128,
    c: Float32,
    c_bits: u128,
)
    requires
        !a.not_a_number(),
        !b.not_a_number(),
        !c.not_a_number(),
    ensures
        ranks_above(a, a_bits, b, b_bits) ==> !ranks_above(b, b_bits, a, a_bits),
        ranks_above(a, a_bits, b, b_bits) && ranks_above(b, b_bits, c, c_bits) ==> ranks_above(
            a,
            a_bits,
            c,
            c_bits,
        ),
        !ranks_above(a, a_bits, b, b_bits) && !ranks_above(b, b_bits, c, c_bits) ==> !ranks_above(
            a,
            a_bits,
            c,
            c_bits,
        ),
{
}

/// A search keeps the best: among scores that are numbers, what it returns
/// stands in order, and nothing that it dropped ranks above what it returns.
pub proof fn best_are_kept(scored: Seq<ScoredRawRef>, top_k: nat)
    requires
        forall|i: int| 0 <= i < scored.len() ==> !(#[trigger] scored[i]).score.not_a_number(),
    ensures
        ({
            let ranked = order::ordered(raw_ranking(), scored);
            let kept = first(ranked, top_k);
            &&& ranked.to_multiset() == scored.to_multiset()
            &&& kept.len() == if top_k < scored.len() {
                top_k
            } else {
                scored.len()
            }
            &&& order::is_ordered(raw_ranking(), kept)
            &&& forall|i: int, j: int|
                0 <= i < kept.len() <= j < ranked.len() ==> !raw_ranking()(
                    #[trigger] ranked[j],
                    #[trigger] kept[i],
                )
        }),
{
    let before = raw_ranking();
    let kind = |item: ScoredRawRef| !item.score.not_a_number();
    let ranked = order::ordered(before, scored);
    assert(order::is_weak_order(before, kind));
    assert(order::all_are(kind, scored));
    order::ordered_is_ordered(before, kind, scored);
    order::ordered_keeps_values(before, scored);
    let kept = first(ranked, top_k);
    assert forall|i: int, j: int| 0 <= i < j < kept.len() implies !before(
        #[trigger] kept[j],
        #[trigger] kept[i],
    ) by {
        assert(kept[j] == ranked[j] && kept[i] == ranked[i]);
    }
}

/// A search for abstract nodes keeps the best: among scores that are numbers, what it returns
/// stands in order, and nothing that it dropped ranks above what it returns.
pub proof fn best_abstracts_are_kept(scored: Seq<ScoredAbstractRef>, top_k: nat)
    requires
        forall|i: int| 0 <= i < scored.len() ==> !(#[trigger] scored[i]).score.not_a_number(),
    ensures
        ({
            let ranked = order::ordered(abstract_ranking(), scored);
            let kept = first(ranked, top_k);
            &&& ranked.to_multiset() == scored.to_multiset()
            &&& kept.len() == if top_k < scored.len() {
                top_k
            } else {
                scored.len()
            }
            &&& order::is_ordered(abstract_ranking(), kept)
            &&& forall|i: int, j: int|
                0 <= i < kept.len() <= j < ranked.len() ==> !abstract_ranking()(
                    #[trigger] ranked[j],
                    #[trigger] kept[i],
                )
        }),
{
    let before = abstract_ranking();
    let kind = |item: ScoredAbstractRef| !item.score.not_a_number();
    let ranked = order::ordered(before, scored);
    assert(order::is_weak_order(before, kind));
    assert(order::all_are(kind, scored));
    order::ordered_is_ordered(before, kind, scored);
    order::ordered_keeps_values(before, scored);
    let kept = first(ranked, top_k);
    assert forall|i: int, j: int| 0 <= i < j < kept.len() implies !before(
        #[trigger] kept[j],
        #[trigger] kept[i],
    ) by {
        assert(kept[j] == ranked[j] && kept[i] == ranked[i]);
    }
}

/// A search compares every embedding of the session that it is for, and no other;
/// a search for no session compares those of none.
pub proof fn searches_compare_their_session<K>(
    entries: Seq<Pair<K, Vector>>,
    query: Option<SessionId>,
)
    ensures
        eligible(entries, query) == entries.filter(
            |entry: Pair<K, Vector>| entry.value.session_id == query,
        ).map_values(
            |entry: Pair<K, Vector>|
                Compared { id: entry.key, components: entry.value.components },
        ),
    decreases entries.len(),
{
    reveal(Seq::filter);
    if entries.len() > 0 {
        searches_compare_their_session(entries.drop_last(), query);
    }
    assert(eligible(entries, query) =~= entries.filter(
        |entry: Pair<K, Vector>| entry.value.session_id == query,
    ).map_values(
        |entry: Pair<K, Vector>| Compared { id: entry.key, components: entry.value.components },
    ));
}

/// What ranks first of what was found is what has the highest score: as many as
/// are asked for, and among scores that are numbers none that is left out has a
/// higher one than a result. Equal scores rank by identifier.
pub proof fn rankings_keep_the_best(scored: Seq<ScoredRawRef>, top_k: nat)
    requires
        forall|i: int| 0 <= i < scored.len() ==> !(#[trigger] scored[i]).score.not_a_number(),
    ensures
        order::are_first_of(
            |left: ScoredRawRef, right: ScoredRawRef|
                right.score.less(left.score) || (!left.score.less(right.score)
                    && left.id.0.bits < right.id.0.bits),
            first(order::ordered(raw_ranking(), scored), top_k),
            scored,
            top_k as int,
        ),
{
    let before = raw_ranking();
    let kind = |item: ScoredRawRef| !item.score.not_a_number();
    assert(order::is_weak_order(before, kind));
    assert(order::all_are(kind, scored));
    order::ordered_keeps_values(before, scored);
    order::sorting_brings_the_first(before, kind, scored, top_k as int);
    let ranked = order::ordered(before, scored);
    if top_k >= scored.len() {
        assert(ranked.take(scored.len() as int) =~= ranked);
    }
    assert(before =~= (|left: ScoredRawRef, right: ScoredRawRef|
        right.score.less(left.score) || (!left.score.less(right.score)
            && left.id.0.bits < right.id.0.bits)));
}

/// The same holds of abstract nodes.
pub proof fn abstract_rankings_keep_the_best(scored: Seq<ScoredAbstractRef>, top_k: nat)
    requires
        forall|i: int| 0 <= i < scored.len() ==> !(#[trigger] scored[i]).score.not_a_number(),
    ensures
        order::are_first_of(
            |left: ScoredAbstractRef, right: ScoredAbstractRef|
                right.score.less(left.score) || (!left.score.less(right.score)
                    && left.id.0.bits < right.id.0.bits),
            first(order::ordered(abstract_ranking(), scored), top_k),
            scored,
            top_k as int,
        ),
{
    let before = abstract_ranking();
    let kind = |item: ScoredAbstractRef| !item.score.not_a_number();
    assert(order::is_weak_order(before, kind));
    assert(order::all_are(kind, scored));
    order::ordered_keeps_values(before, scored);
    order::sorting_brings_the_first(before, kind, scored, top_k as int);
    let ranked = order::ordered(before, scored);
    if top_k >= scored.len() {
        assert(ranked.take(scored.len() as int) =~= ranked);
    }
    assert(before =~= (|left: ScoredAbstractRef, right: ScoredAbstractRef|
        right.score.less(left.score) || (!left.score.less(right.score)
            && left.id.0.bits < right.id.0.bits)));
}

} // verus!
