//! What a search returns of the embeddings that were indexed in a store.
use vstd::prelude::*;

use crate::float32::Float32;
use crate::ids::{
    AbstractNodeId, AbstractNodeIdOrder, RawNodeId, RawNodeIdOrder, SessionId,
};
use crate::order;
use crate::storage::object_complete;
use crate::storage::object_store;
use crate::storage::object_store::{EmbeddingOwner, Shard};
use crate::storage::records::{ScoredAbstractRef, ScoredRawRef};
use crate::storage::vector;
use crate::storage::vector::{entry_matches_session_filter, rank_abstract, rank_raw};

verus! {

/// What the list of a session holds once embeddings were indexed, one after the
/// other.
pub open spec fn indexed<I: View>(
    before: spec_fn(I::V, I::V) -> bool,
    owners: Seq<EmbeddingOwner<I>>,
    shard: Shard,
) -> Seq<I::V>
    decreases owners.len(),
{
    if owners.len() == 0 {
        Seq::empty()
    } else {
        let earlier = indexed(before, owners.drop_last(), shard);
        if owners.last().session_id == shard.0 {
            order::distinct(before, object_store::including(earlier, owners.last().id@))
        } else {
            earlier
        }
    }
}

/// An embedding that the list of a session leads to: the session that it is
/// stored for, and how similar it is to what is searched.
#[derive(Debug, Clone, Copy)]
pub struct ListedEmbedding<I> {
    pub id: I,
    pub session_id: Option<SessionId>,
    pub score: Float32,
}

/// Whether an embedding was indexed at all.
pub open spec fn occurs<I: View>(owners: Seq<EmbeddingOwner<I>>, id: I::V) -> bool {
    exists|i: int| 0 <= i < owners.len() && (#[trigger] owners[i]).id@ == id
}

/// The session that an embedding is stored for: the one it was indexed for last.
pub open spec fn stored_session<I: View>(owners: Seq<EmbeddingOwner<I>>, id: I::V) -> Option<
    SessionId,
>
    decreases owners.len(),
{
    if owners.len() == 0 {
        None
    } else if owners.last().id@ == id {
        owners.last().session_id
    } else {
        stored_session(owners.drop_last(), id)
    }
}

/// Whether an embedding is stored for a session.
pub open spec fn belongs<I: View>(
    owners: Seq<EmbeddingOwner<I>>,
    session_id: Option<SessionId>,
    id: I::V,
) -> bool {
    occurs(owners, id) && stored_session(owners, id) == session_id
}

/// Those of some embeddings that are stored for a session.
pub open spec fn stored_for<I: View>(
    owners: Seq<EmbeddingOwner<I>>,
    listed: Seq<I::V>,
    session_id: Option<SessionId>,
) -> Seq<I::V>
    decreases listed.len(),
{
    if listed.len() == 0 {
        Seq::empty()
    } else {
        let rest = stored_for(owners, listed.drop_last(), session_id);
        if stored_session(owners, listed.last()) == session_id {
            rest.push(listed.last())
        } else {
            rest
        }
    }
}

/// What a search for a session compares once embeddings were indexed one after
/// the other: those that its list holds and that are stored for it.
pub open spec fn held<I: View>(
    before: spec_fn(I::V, I::V) -> bool,
    owners: Seq<EmbeddingOwner<I>>,
    session_id: Option<SessionId>,
) -> Seq<I::V> {
    stored_for(owners, indexed(before, owners, Shard(session_id)), session_id)
}

/// Indexing embeddings one after the other lists what a rebuild lists.
pub proof fn indexing_lists_the_embeddings<I: View>(
    before: spec_fn(I::V, I::V) -> bool,
    owners: Seq<EmbeddingOwner<I>>,
    shard: Shard,
)
    requires
        order::is_weak_order(before, |value: I::V| true),
        forall|a: I::V, b: I::V| !#[trigger] before(a, b) && !before(b, a) ==> a == b,
    ensures
        indexed(before, owners, shard) == order::distinct(
            before,
            object_store::owned(owners, shard),
        ),
    decreases owners.len(),
{
    if owners.len() > 0 {
        let rest = owners.drop_last();
        indexing_lists_the_embeddings(before, rest, shard);
        object_store::manifests_grow_as_rebuilt(
            before,
            object_store::owned(rest, shard),
            owners.last().id@,
        );
    } else {
        assert(order::ordered(before, Seq::<I::V>::empty()) =~= Seq::<I::V>::empty());
        assert(indexed(before, owners, shard) =~= order::distinct(
            before,
            object_store::owned(owners, shard),
        ));
    }
}

/// An embedding was indexed for the session that it is stored for.
proof fn stored_sessions_were_indexed<I: View>(owners: Seq<EmbeddingOwner<I>>, id: I::V)
    requires
        occurs(owners, id),
    ensures
        exists|i: int|
            0 <= i < owners.len() && (#[trigger] owners[i]).session_id == stored_session(
                owners,
                id,
            ) && owners[i].id@ == id,
    decreases owners.len(),
{
    let last = owners.len() - 1;
    if owners[last].id@ != id {
        let rest = owners.drop_last();
        let i = choose|i: int| 0 <= i < owners.len() && (#[trigger] owners[i]).id@ == id;
        assert(rest[i].id@ == id);
        stored_sessions_were_indexed(rest, id);
        let j = choose|j: int|
            0 <= j < rest.len() && (#[trigger] rest[j]).session_id == stored_session(rest, id)
                && rest[j].id@ == id;
        assert(owners[j] == rest[j]);
    }
}

proof fn stored_for_keeps_order<I: View>(
    before: spec_fn(I::V, I::V) -> bool,
    owners: Seq<EmbeddingOwner<I>>,
    listed: Seq<I::V>,
    session_id: Option<SessionId>,
)
    requires
        order::is_strictly_ordered(before, listed),
    ensures
        order::is_strictly_ordered(before, stored_for(owners, listed, session_id)),
        forall|id: I::V| #[trigger]
            stored_for(owners, listed, session_id).contains(id) <==> listed.contains(id)
                && stored_session(owners, id) == session_id,
    decreases listed.len(),
{
    if listed.len() > 0 {
        let rest = listed.drop_last();
        let kept = stored_for(owners, rest, session_id);
        let all = stored_for(owners, listed, session_id);
        assert forall|i: int, j: int| 0 <= i < j < rest.len() implies before(
            #[trigger] rest[i],
            #[trigger] rest[j],
        ) by {
            assert(before(listed[i], listed[j]));
        }
        stored_for_keeps_order(before, owners, rest, session_id);
        assert forall|i: int, j: int| 0 <= i < j < all.len() implies before(
            #[trigger] all[i],
            #[trigger] all[j],
        ) by {
            assert(all[i] == kept[i]);
            if j == kept.len() {
                assert(kept.contains(kept[i]));
                let k = choose|k: int| 0 <= k < rest.len() && rest[k] == kept[i];
                assert(before(listed[k], listed[listed.len() - 1]));
            } else {
                assert(all[j] == kept[j]);
            }
        }
        assert forall|id: I::V| #[trigger] all.contains(id) <==> listed.contains(id)
            && stored_session(owners, id) == session_id by {
            if all.contains(id) {
                let k = choose|k: int| 0 <= k < all.len() && all[k] == id;
                if k < kept.len() {
                    assert(kept[k] == id);
                    assert(kept.contains(id));
                    let m = choose|m: int| 0 <= m < rest.len() && rest[m] == id;
                    assert(listed[m] == id);
                } else {
                    assert(listed[listed.len() - 1] == id);
                }
            }
            if listed.contains(id) && stored_session(owners, id) == session_id {
                let k = choose|k: int| 0 <= k < listed.len() && listed[k] == id;
                if k < rest.len() {
                    assert(rest[k] == id);
                    assert(kept.contains(id));
                    let m = choose|m: int| 0 <= m < kept.len() && kept[m] == id;
                    assert(all[m] == id);
                } else {
                    assert(all[kept.len() as int] == id);
                }
            }
        }
    }
}

/// A search for a session compares the embeddings that are stored for it, each
/// once and in order, and no others.
pub proof fn sessions_hold_their_embeddings<I: View>(
    before: spec_fn(I::V, I::V) -> bool,
    owners: Seq<EmbeddingOwner<I>>,
    session_id: Option<SessionId>,
)
    requires
        order::is_weak_order(before, |value: I::V| true),
        forall|a: I::V, b: I::V| !#[trigger] before(a, b) && !before(b, a) ==> a == b,
    ensures
        order::is_strictly_ordered(before, held(before, owners, session_id)),
        forall|id: I::V| #[trigger]
            held(before, owners, session_id).contains(id) <==> belongs(owners, session_id, id),
{
    let shard = Shard(session_id);
    let listed = indexed(before, owners, shard);
    indexing_lists_the_embeddings(before, owners, shard);
    order::distinct_is_strict(before, object_store::owned(owners, shard));
    stored_for_keeps_order(before, owners, listed, session_id);
    assert forall|id: I::V| #[trigger]
        held(before, owners, session_id).contains(id) <==> belongs(owners, session_id, id) by {
        object_complete::owned_holds(owners, shard, id);
        if belongs(owners, session_id, id) {
            stored_sessions_were_indexed(owners, id);
        }
        if listed.contains(id) {
            let i = choose|i: int|
                0 <= i < owners.len() && (#[trigger] owners[i]).session_id == shard.0
                    && owners[i].id@ == id;
            assert(owners[i].id@ == id);
            assert(occurs(owners, id));
        }
    }
}

/// A store that lists its embeddings anew, as they are stored, searches the
/// same.
pub proof fn rebuilding_changes_no_search<I: View>(
    before: spec_fn(I::V, I::V) -> bool,
    owners: Seq<EmbeddingOwner<I>>,
    stored: Seq<EmbeddingOwner<I>>,
    session_id: Option<SessionId>,
)
    requires
        order::is_weak_order(before, |value: I::V| true),
        forall|a: I::V, b: I::V| !#[trigger] before(a, b) && !before(b, a) ==> a == b,
        forall|id: I::V| #[trigger] occurs(owners, id) <==> occurs(stored, id),
        forall|id: I::V|
            occurs(owners, id) ==> #[trigger] stored_session(owners, id) == stored_session(
                stored,
                id,
            ),
    ensures
        held(before, owners, session_id) == held(before, stored, session_id),
{
    sessions_hold_their_embeddings(before, owners, session_id);
    sessions_hold_their_embeddings(before, stored, session_id);
    let left = held(before, owners, session_id);
    let right = held(before, stored, session_id);
    assert forall|id: I::V| #[trigger] left.contains(id) <==> right.contains(id) by {
        assert(belongs(owners, session_id, id) <==> belongs(stored, session_id, id)) by {
            assert(occurs(owners, id) <==> occurs(stored, id));
            if occurs(owners, id) {
                assert(stored_session(owners, id) == stored_session(stored, id));
            }
        }
    }
    order::strict_order_is_unique(before, left, right);
}

/// The order of identifiers of raw nodes as a function.
pub open spec fn raw_ids_in_order() -> spec_fn(RawNodeId, RawNodeId) -> bool {
    order::order_of::<RawNodeId, RawNodeIdOrder>(&RawNodeIdOrder)
}

/// What a search compares: those of the listed embeddings that are stored for
/// the session.
pub open spec fn compared_raws(
    listed: Seq<ListedEmbedding<RawNodeId>>,
    session_id: Option<SessionId>,
) -> Seq<ScoredRawRef>
    decreases listed.len(),
{
    if listed.len() == 0 {
        Seq::empty()
    } else {
        let rest = compared_raws(listed.drop_last(), session_id);
        if listed.last().session_id == session_id {
            rest.push(ScoredRawRef { id: listed.last().id, score: listed.last().score })
        } else {
            rest
        }
    }
}

/// Searches among the embeddings that the list of a session leads to: the best
/// of those that are stored for the session.
pub fn search_listed_raws(
    listed: &[ListedEmbedding<RawNodeId>],
    session_id: Option<SessionId>,
    top_k: usize,
) -> (result: Vec<ScoredRawRef>)
    ensures
        result@ == vector::first(
            order::ordered(vector::raw_ranking(), compared_raws(listed@, session_id)),
            top_k as nat,
        ),
{
    let mut scored: Vec<ScoredRawRef> = Vec::new();
    let mut index: usize = 0;
    while index < listed.len()
        invariant
            index <= listed.len(),
            scored@ == compared_raws(listed@.take(index as int), session_id),
        decreases listed.len() - index,
    {
        let item = &listed[index];
        proof {
            assert(listed@.take(index + 1).drop_last() =~= listed@.take(index as int));
            assert(listed@.take(index + 1).last() == *item);
        }
        if entry_matches_session_filter(item.session_id, session_id) {
            scored.push(ScoredRawRef { id: item.id, score: item.score });
        }
        index = index + 1;
    }
    assert(listed@.take(listed@.len() as int) =~= listed@);
    rank_raw(scored, top_k)
}

/// The embeddings that the list of a session leads to, once they were indexed
/// one after the other.
pub open spec fn listed_raws(
    owners: Seq<EmbeddingOwner<RawNodeId>>,
    session_id: Option<SessionId>,
    similarity: spec_fn(RawNodeId) -> Float32,
) -> Seq<ListedEmbedding<RawNodeId>> {
    indexed(raw_ids_in_order(), owners, Shard(session_id)).map_values(
        |id: RawNodeId|
            ListedEmbedding {
                id,
                session_id: stored_session(owners, id),
                score: similarity(id),
            },
    )
}

/// What a search for a session returns.
pub open spec fn searched_raws(
    owners: Seq<EmbeddingOwner<RawNodeId>>,
    session_id: Option<SessionId>,
    similarity: spec_fn(RawNodeId) -> Float32,
    top_k: nat,
) -> Seq<ScoredRawRef> {
    vector::first(
        order::ordered(
            vector::raw_ranking(),
            compared_raws(listed_raws(owners, session_id, similarity), session_id),
        ),
        top_k,
    )
}

proof fn compared_raws_are_held(
    owners: Seq<EmbeddingOwner<RawNodeId>>,
    ids: Seq<RawNodeId>,
    session_id: Option<SessionId>,
    similarity: spec_fn(RawNodeId) -> Float32,
)
    ensures
        compared_raws(
            ids.map_values(
                |id: RawNodeId|
                    ListedEmbedding {
                        id,
                        session_id: stored_session(owners, id),
                        score: similarity(id),
                    },
            ),
            session_id,
        ) == stored_for(owners, ids, session_id).map_values(
            |id: RawNodeId| ScoredRawRef { id, score: similarity(id) },
        ),
    decreases ids.len(),
{
    let list = |id: RawNodeId|
        ListedEmbedding { id, session_id: stored_session(owners, id), score: similarity(id) };
    let score = |id: RawNodeId| ScoredRawRef { id, score: similarity(id) };
    let listed = ids.map_values(list);
    let kept = stored_for(owners, ids, session_id);
    if ids.len() > 0 {
        let rest = ids.drop_last();
        compared_raws_are_held(owners, rest, session_id, similarity);
        assert(listed.drop_last() =~= rest.map_values(list));
        assert(listed.last() == list(ids.last()));
        let earlier = stored_for(owners, rest, session_id);
        if stored_session(owners, ids.last()) == session_id {
            assert(kept.map_values(score) =~= earlier.map_values(score).push(score(ids.last())));
        }
    }
    assert(compared_raws(listed, session_id) =~= kept.map_values(score));
}

/// A search for a session returns the best of the embeddings that are stored
/// for that session, each once, with its similarity, the best first; a search
/// for no session returns those that are stored for none. It returns as many as
/// are wanted, or all.
pub proof fn raw_searches_return_the_best(
    owners: Seq<EmbeddingOwner<RawNodeId>>,
    session_id: Option<SessionId>,
    similarity: spec_fn(RawNodeId) -> Float32,
    top_k: nat,
)
    requires
        forall|id: RawNodeId| #[trigger]
            belongs(owners, session_id, id) ==> !similarity(id).not_a_number(),
    ensures
        ({
            let result = searched_raws(owners, session_id, similarity, top_k);
            let matching = held(raw_ids_in_order(), owners, session_id).len();
            &&& result.len() == if top_k < matching {
                top_k
            } else {
                matching
            }
            &&& forall|k: int|
                0 <= k < result.len() ==> {
                    &&& belongs(owners, session_id, (#[trigger] result[k]).id)
                    &&& result[k].score == similarity(result[k].id)
                }
            &&& order::is_strictly_ordered(vector::raw_ranking(), result)
            &&& forall|k: int, id: RawNodeId|
                0 <= k < result.len() && #[trigger] belongs(owners, session_id, id)
                    && !result.contains(ScoredRawRef { id, score: similarity(id) })
                    ==> !vector::raw_ranking()(
                    ScoredRawRef { id, score: similarity(id) },
                    #[trigger] result[k],
                )
        }),
{
    broadcast use vstd::seq_lib::group_to_multiset_ensures;

    let before = raw_ids_in_order();
    assert(order::is_weak_order(before, |id: RawNodeId| true));
    assert forall|a: RawNodeId, b: RawNodeId| !#[trigger] before(a, b) && !before(b, a) implies a
        == b by {
        assert(a.0.bits == b.0.bits);
    }
    sessions_hold_their_embeddings(before, owners, session_id);
    let matching = held(before, owners, session_id);
    compared_raws_are_held(
        owners,
        indexed(before, owners, Shard(session_id)),
        session_id,
        similarity,
    );
    let compared = compared_raws(listed_raws(owners, session_id, similarity), session_id);
    assert(compared == matching.map_values(|id: RawNodeId| ScoredRawRef { id, score: similarity(id) }));
    assert forall|k: int| 0 <= k < compared.len() implies {
        &&& belongs(owners, session_id, (#[trigger] compared[k]).id)
        &&& compared[k].score == similarity(compared[k].id)
        &&& !compared[k].score.not_a_number()
    } by {
        assert(matching.contains(matching[k]));
    }
    vector::best_are_kept(compared, top_k);
    let ranked = order::ordered(vector::raw_ranking(), compared);
    let result = vector::first(ranked, top_k);
    assert forall|i: int, j: int| 0 <= i < j < compared.len() implies compared[i] != compared[j] by {
        assert(before(matching[i], matching[j]));
    }
    assert(compared.no_duplicates());
    compared.lemma_multiset_has_no_duplicates();
    ranked.lemma_multiset_has_no_duplicates_conv();
    assert forall|k: int| 0 <= k < ranked.len() implies compared.contains(#[trigger] ranked[k]) by {
        assert(ranked.to_multiset().count(ranked[k]) > 0);
        assert(compared.to_multiset().count(ranked[k]) > 0);
    }
    assert forall|k: int| 0 <= k < result.len() implies {
        &&& belongs(owners, session_id, (#[trigger] result[k]).id)
        &&& result[k].score == similarity(result[k].id)
        &&& !result[k].score.not_a_number()
    } by {
        assert(result[k] == ranked[k]);
        assert(compared.contains(ranked[k]));
        let m = choose|m: int| 0 <= m < compared.len() && compared[m] == ranked[k];
        assert(belongs(owners, session_id, compared[m].id));
    }
    assert forall|i: int, j: int| 0 <= i < j < result.len() implies vector::raw_ranking()(
        #[trigger] result[i],
        #[trigger] result[j],
    ) by {
        assert(!vector::raw_ranking()(result[j], result[i]));
        assert(ranked[i] != ranked[j]);
        assert(result[i].id != result[j].id);
        assert(result[i].id.0.bits != result[j].id.0.bits);
    }
    assert forall|k: int, id: RawNodeId|
        0 <= k < result.len() && #[trigger] belongs(owners, session_id, id) && !result.contains(
            ScoredRawRef { id, score: similarity(id) },
        ) implies !vector::raw_ranking()(
        ScoredRawRef { id, score: similarity(id) },
        #[trigger] result[k],
    ) by {
        let item = ScoredRawRef { id, score: similarity(id) };
        assert(matching.contains(id));
        let m = choose|m: int| 0 <= m < matching.len() && matching[m] == id;
        assert(compared[m] == item);
        assert(compared.to_multiset().count(item) > 0);
        assert(ranked.to_multiset().count(item) > 0);
        assert(ranked.contains(item));
        let j = choose|j: int| 0 <= j < ranked.len() && ranked[j] == item;
        if j < result.len() {
            assert(result[j] == item);
        }
    }
}

/// The order of identifiers of abstract nodes as a function.
pub open spec fn abstract_ids_in_order() -> spec_fn(AbstractNodeId, AbstractNodeId) -> bool {
    order::order_of::<AbstractNodeId, AbstractNodeIdOrder>(&AbstractNodeIdOrder)
}

/// What a search compares: those of the listed embeddings that are stored for
/// the session.
pub open spec fn compared_abstracts(
    listed: Seq<ListedEmbedding<AbstractNodeId>>,
    session_id: Option<SessionId>,
) -> Seq<ScoredAbstractRef>
    decreases listed.len(),
{
    if listed.len() == 0 {
        Seq::empty()
    } else {
        let rest = compared_abstracts(listed.drop_last(), session_id);
        if listed.last().session_id == session_id {
            rest.push(ScoredAbstractRef { id: listed.last().id, score: listed.last().score })
        } else {
            rest
        }
    }
}

/// Searches among the embeddings that the list of a session leads to: the best
/// of those that are stored for the session.
pub fn search_listed_abstracts(
    listed: &[ListedEmbedding<AbstractNodeId>],
    session_id: Option<SessionId>,
    top_k: usize,
) -> (result: Vec<ScoredAbstractRef>)
    ensures
        result@ == vector::first(
            order::ordered(vector::abstract_ranking(), compared_abstracts(listed@, session_id)),
            top_k as nat,
        ),
{
    let mut scored: Vec<ScoredAbstractRef> = Vec::new();
    let mut index: usize = 0;
    while index < listed.len()
        invariant
            index <= listed.len(),
            scored@ == compared_abstracts(listed@.take(index as int), session_id),
        decreases listed.len() - index,
    {
        let item = &listed[index];
        proof {
            assert(listed@.take(index + 1).drop_last() =~= listed@.take(index as int));
            assert(listed@.take(index + 1).last() == *item);
        }
        if entry_matches_session_filter(item.session_id, session_id) {
            scored.push(ScoredAbstractRef { id: item.id, score: item.score });
        }
        index = index + 1;
    }
    assert(listed@.take(listed@.len() as int) =~= listed@);
    rank_abstract(scored, top_k)
}

/// The embeddings that the list of a session leads to, once they were indexed
/// one after the other.
pub open spec fn listed_abstracts(
    owners: Seq<EmbeddingOwner<AbstractNodeId>>,
    session_id: Option<SessionId>,
    similarity: spec_fn(AbstractNodeId) -> Float32,
) -> Seq<ListedEmbedding<AbstractNodeId>> {
    indexed(abstract_ids_in_order(), owners, Shard(session_id)).map_values(
        |id: AbstractNodeId|
            ListedEmbedding {
                id,
                session_id: stored_session(owners, id),
                score: similarity(id),
            },
    )
}

/// What a search for a session returns.
pub open spec fn searched_abstracts(
    owners: Seq<EmbeddingOwner<AbstractNodeId>>,
    session_id: Option<SessionId>,
    similarity: spec_fn(AbstractNodeId) -> Float32,
    top_k: nat,
) -> Seq<ScoredAbstractRef> {
    vector::first(
        order::ordered(
            vector::abstract_ranking(),
            compared_abstracts(listed_abstracts(owners, session_id, similarity), session_id),
        ),
        top_k,
    )
}

proof fn compared_abstracts_are_held(
    owners: Seq<EmbeddingOwner<AbstractNodeId>>,
    ids: Seq<AbstractNodeId>,
    session_id: Option<SessionId>,
    similarity: spec_fn(AbstractNodeId) -> Float32,
)
    ensures
        compared_abstracts(
            ids.map_values(
                |id: AbstractNodeId|
                    ListedEmbedding {
                        id,
                        session_id: stored_session(owners, id),
                        score: similarity(id),
                    },
            ),
            session_id,
        ) == stored_for(owners, ids, session_id).map_values(
            |id: AbstractNodeId| ScoredAbstractRef { id, score: similarity(id) },
        ),
    decreases ids.len(),
{
    let list = |id: AbstractNodeId|
        ListedEmbedding { id, session_id: stored_session(owners, id), score: similarity(id) };
    let score = |id: AbstractNodeId| ScoredAbstractRef { id, score: similarity(id) };
    let listed = ids.map_values(list);
    let kept = stored_for(owners, ids, session_id);
    if ids.len() > 0 {
        let rest = ids.drop_last();
        compared_abstracts_are_held(owners, rest, session_id, similarity);
        assert(listed.drop_last() =~= rest.map_values(list));
        assert(listed.last() == list(ids.last()));
        let earlier = stored_for(owners, rest, session_id);
        if stored_session(owners, ids.last()) == session_id {
            assert(kept.map_values(score) =~= earlier.map_values(score).push(score(ids.last())));
        }
    }
    assert(compared_abstracts(listed, session_id) =~= kept.map_values(score));
}

/// A search among abstract nodes for a session returns the best of the embeddings that are stored
/// for that session, each once, with its similarity, the best first; a search
/// for no session returns those that are stored for none. It returns as many as
/// are wanted, or all.
pub proof fn abstract_searches_return_the_best(
    owners: Seq<EmbeddingOwner<AbstractNodeId>>,
    session_id: Option<SessionId>,
    similarity: spec_fn(AbstractNodeId) -> Float32,
    top_k: nat,
)
    requires
        forall|id: AbstractNodeId| #[trigger]
            belongs(owners, session_id, id) ==> !similarity(id).not_a_number(),
    ensures
        ({
            let result = searched_abstracts(owners, session_id, similarity, top_k);
            let matching = held(abstract_ids_in_order(), owners, session_id).len();
            &&& result.len() == if top_k < matching {
                top_k
            } else {
                matching
            }
            &&& forall|k: int|
                0 <= k < result.len() ==> {
                    &&& belongs(owners, session_id, (#[trigger] result[k]).id)
                    &&& result[k].score == similarity(result[k].id)
                }
            &&& order::is_strictly_ordered(vector::abstract_ranking(), result)
            &&& forall|k: int, id: AbstractNodeId|
                0 <= k < result.len() && #[trigger] belongs(owners, session_id, id)
                    && !result.contains(ScoredAbstractRef { id, score: similarity(id) })
                    ==> !vector::abstract_ranking()(
                    ScoredAbstractRef { id, score: similarity(id) },
                    #[trigger] result[k],
                )
        }),
{
    broadcast use vstd::seq_lib::group_to_multiset_ensures;

    let before = abstract_ids_in_order();
    assert(order::is_weak_order(before, |id: AbstractNodeId| true));
    assert forall|a: AbstractNodeId, b: AbstractNodeId| !#[trigger] before(a, b) && !before(b, a) implies a
        == b by {
        assert(a.0.bits == b.0.bits);
    }
    sessions_hold_their_embeddings(before, owners, session_id);
    let matching = held(before, owners, session_id);
    compared_abstracts_are_held(
        owners,
        indexed(before, owners, Shard(session_id)),
        session_id,
        similarity,
    );
    let compared = compared_abstracts(listed_abstracts(owners, session_id, similarity), session_id);
    assert(compared == matching.map_values(|id: AbstractNodeId| ScoredAbstractRef { id, score: similarity(id) }));
    assert forall|k: int| 0 <= k < compared.len() implies {
        &&& belongs(owners, session_id, (#[trigger] compared[k]).id)
        &&& compared[k].score == similarity(compared[k].id)
        &&& !compared[k].score.not_a_number()
    } by {
        assert(matching.contains(matching[k]));
    }
    vector::best_abstracts_are_kept(compared, top_k);
    let ranked = order::ordered(vector::abstract_ranking(), compared);
    let result = vector::first(ranked, top_k);
    assert forall|i: int, j: int| 0 <= i < j < compared.len() implies compared[i] != compared[j] by {
        assert(before(matching[i], matching[j]));
    }
    assert(compared.no_duplicates());
    compared.lemma_multiset_has_no_duplicates();
    ranked.lemma_multiset_has_no_duplicates_conv();
    assert forall|k: int| 0 <= k < ranked.len() implies compared.contains(#[trigger] ranked[k]) by {
        assert(ranked.to_multiset().count(ranked[k]) > 0);
        assert(compared.to_multiset().count(ranked[k]) > 0);
    }
    assert forall|k: int| 0 <= k < result.len() implies {
        &&& belongs(owners, session_id, (#[trigger] result[k]).id)
        &&& result[k].score == similarity(result[k].id)
        &&& !result[k].score.not_a_number()
    } by {
        assert(result[k] == ranked[k]);
        assert(compared.contains(ranked[k]));
        let m = choose|m: int| 0 <= m < compared.len() && compared[m] == ranked[k];
        assert(belongs(owners, session_id, compared[m].id));
    }
    assert forall|i: int, j: int| 0 <= i < j < result.len() implies vector::abstract_ranking()(
        #[trigger] result[i],
        #[trigger] result[j],
    ) by {
        assert(!vector::abstract_ranking()(result[j], result[i]));
        assert(ranked[i] != ranked[j]);
        assert(result[i].id != result[j].id);
        assert(result[i].id.0.bits != result[j].id.0.bits);
    }
    assert forall|k: int, id: AbstractNodeId|
        0 <= k < result.len() && #[trigger] belongs(owners, session_id, id) && !result.contains(
            ScoredAbstractRef { id, score: similarity(id) },
        ) implies !vector::abstract_ranking()(
        ScoredAbstractRef { id, score: similarity(id) },
        #[trigger] result[k],
    ) by {
        let item = ScoredAbstractRef { id, score: similarity(id) };
        assert(matching.contains(id));
        let m = choose|m: int| 0 <= m < matching.len() && matching[m] == id;
        assert(compared[m] == item);
        assert(compared.to_multiset().count(item) > 0);
        assert(ranked.to_multiset().count(item) > 0);
        assert(ranked.contains(item));
        let j = choose|j: int| 0 <= j < ranked.len() && ranked[j] == item;
        if j < result.len() {
            assert(result[j] == item);
        }
    }
}

/// A search among listed embeddings compares each of them that is stored for its
/// session, with its score, and no other.
pub proof fn listed_raws_are_compared(
    listed: Seq<ListedEmbedding<RawNodeId>>,
    session_id: Option<SessionId>,
)
    ensures
        compared_raws(listed, session_id) == listed.filter(
            |item: ListedEmbedding<RawNodeId>| item.session_id == session_id,
        ).map_values(
            |item: ListedEmbedding<RawNodeId>| ScoredRawRef { id: item.id, score: item.score },
        ),
    decreases listed.len(),
{
    reveal(Seq::filter);
    if listed.len() > 0 {
        listed_raws_are_compared(listed.drop_last(), session_id);
    }
    assert(compared_raws(listed, session_id) =~= listed.filter(
        |item: ListedEmbedding<RawNodeId>| item.session_id == session_id,
    ).map_values(
        |item: ListedEmbedding<RawNodeId>| ScoredRawRef { id: item.id, score: item.score },
    ));
}

/// A search among listed embeddings compares each of them that is stored for its
/// session, with its score, and no other.
pub proof fn listed_abstracts_are_compared(
    listed: Seq<ListedEmbedding<AbstractNodeId>>,
    session_id: Option<SessionId>,
)
    ensures
        compared_abstracts(listed, session_id) == listed.filter(
            |item: ListedEmbedding<AbstractNodeId>| item.session_id == session_id,
        ).map_values(
            |item: ListedEmbedding<AbstractNodeId>| ScoredAbstractRef { id: item.id, score: item.score },
        ),
    decreases listed.len(),
{
    reveal(Seq::filter);
    if listed.len() > 0 {
        listed_abstracts_are_compared(listed.drop_last(), session_id);
    }
    assert(compared_abstracts(listed, session_id) =~= listed.filter(
        |item: ListedEmbedding<AbstractNodeId>| item.session_id == session_id,
    ).map_values(
        |item: ListedEmbedding<AbstractNodeId>| ScoredAbstractRef { id: item.id, score: item.score },
    ));
}

} // verus!
