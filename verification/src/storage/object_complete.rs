//! Whether the indexes of a store list everything that it holds, and that they
//! do once they were rebuilt.
use vstd::prelude::*;

use crate::domain::raw_node::Raw;
use crate::ids;
use crate::ids::{LoopId, RawNodeId, SessionId};
use crate::json;
use crate::json::reads_as_json;
use crate::order;
use crate::storage::in_memory;
use crate::storage::object_index;
use crate::storage::object_index::Index;
use crate::storage::object_rebuild;
use crate::storage::object_rebuild::RawIndexes;
use crate::storage::object_store;
use crate::storage::object_store::{bodies_are_covered, EmbeddingOwner, FileId, Manifest, Shard};
use crate::storage::timeline;
use crate::storage::timeline::RawIndexEntry;
use crate::table;
use crate::table::{Key, Pair};

verus! {

/// The nodes that timelines list, one timeline after the other.
pub open spec fn shard_ids(shards: Seq<Seq<RawIndexEntry>>) -> Seq<RawNodeId>
    decreases shards.len(),
{
    if shards.len() == 0 {
        Seq::empty()
    } else {
        shard_ids(shards.drop_last()) + shards.last().map_values(|entry: RawIndexEntry| entry.id)
    }
}

/// The embeddings that lists hold, one list after the other.
pub open spec fn manifests_ids<V>(manifests: Seq<Seq<V>>) -> Seq<V>
    decreases manifests.len(),
{
    if manifests.len() == 0 {
        Seq::empty()
    } else {
        manifests_ids(manifests.drop_last()) + manifests.last()
    }
}

/// The timelines as mathematical values.
pub open spec fn shards_view(shards: Seq<Vec<RawIndexEntry>>) -> Seq<Seq<RawIndexEntry>> {
    shards.map_values(|shard: Vec<RawIndexEntry>| shard@)
}

/// Whether all lists could be read.
pub open spec fn all_readable<I>(manifests: Seq<Option<Manifest<I>>>) -> bool {
    forall|i: int| 0 <= i < manifests.len() ==> (#[trigger] manifests[i]) is Some
}

/// The embeddings of each list, where all of them could be read.
pub open spec fn readable_views<I: View>(manifests: Seq<Option<Manifest<I>>>) -> Seq<Seq<I::V>> {
    manifests.map_values(|manifest: Option<Manifest<I>>| manifest->0@)
}

fn listed_ids(shards: &[Vec<RawIndexEntry>]) -> (result: Vec<RawNodeId>)
    ensures
        order::views(result@) == shard_ids(shards_view(shards@)),
{
    let ghost all = shards_view(shards@);
    let ghost pick = |entry: RawIndexEntry| entry.id;
    let mut result: Vec<RawNodeId> = Vec::new();
    let mut index: usize = 0;
    assert(all.take(0) =~= Seq::<Seq<RawIndexEntry>>::empty());
    assert(order::views(result@) =~= Seq::<RawNodeId>::empty());
    while index < shards.len()
        invariant
            index <= shards.len(),
            all == shards_view(shards@),
            pick == (|entry: RawIndexEntry| entry.id),
            order::views(result@) == shard_ids(all.take(index as int)),
        decreases shards.len() - index,
    {
        let shard = &shards[index];
        let ghost before = order::views(result@);
        let mut place: usize = 0;
        assert(before + shard@.take(0).map_values(pick) =~= before);
        while place < shard.len()
            invariant
                place <= shard.len(),
                pick == (|entry: RawIndexEntry| entry.id),
                order::views(result@) == before + shard@.take(place as int).map_values(pick),
            decreases shard.len() - place,
        {
            let ghost held = order::views(result@);
            let id = shard[place].id;
            result.push(id);
            proof {
                assert(order::views(result@) =~= held.push(id));
                assert(shard@.take(place + 1).map_values(pick) =~= shard@.take(
                    place as int,
                ).map_values(pick).push(id));
            }
            place = place + 1;
        }
        proof {
            assert(shard@.take(shard@.len() as int) =~= shard@);
            assert(all.take(index + 1).drop_last() =~= all.take(index as int));
            assert(all.take(index + 1).last() == shard@);
        }
        index = index + 1;
    }
    assert(all.take(all.len() as int) =~= all);
    result
}

fn append_ids<I: Key + Copy>(result: &mut Vec<I>, ids: &[I])
    ensures
        order::views(final(result)@) == order::views(old(result)@) + order::views(ids@),
{
    let ghost before = order::views(result@);
    let ghost listed = order::views(ids@);
    let mut place: usize = 0;
    assert(before + listed.take(0) =~= before);
    while place < ids.len()
        invariant
            place <= ids.len(),
            listed == order::views(ids@),
            order::views(result@) == before + listed.take(place as int),
        decreases ids.len() - place,
    {
        let ghost held = order::views(result@);
        let id = ids[place];
        result.push(id);
        proof {
            assert(order::views(result@) =~= held.push(id@));
            assert(listed.take(place + 1) =~= listed.take(place as int).push(id@));
        }
        place = place + 1;
    }
    assert(listed.take(listed.len() as int) =~= listed);
}

fn embedded_ids<I: Key + Copy>(manifests: &[Manifest<I>]) -> (result: Vec<I>)
    ensures
        order::views(result@) == manifests_ids(order::views(manifests@)),
{
    let ghost all = order::views(manifests@);
    let mut result: Vec<I> = Vec::new();
    let mut index: usize = 0;
    assert(all.take(0) =~= Seq::<Seq<I::V>>::empty());
    assert(order::views(result@) =~= Seq::<I::V>::empty());
    while index < manifests.len()
        invariant
            index <= manifests.len(),
            all == order::views(manifests@),
            order::views(result@) == manifests_ids(all.take(index as int)),
        decreases manifests.len() - index,
    {
        let manifest = &manifests[index];
        append_ids(&mut result, manifest.ids.as_slice());
        proof {
            assert(all.take(index + 1).drop_last() =~= all.take(index as int));
            assert(all.take(index + 1).last() == manifest@);
        }
        index = index + 1;
    }
    assert(all.take(all.len() as int) =~= all);
    result
}

/// Whether the timelines list every raw node of a store, given the names of the
/// nodes' files without their ending.
pub fn indexes_are_complete(names: &[String], shards: &[Vec<RawIndexEntry>]) -> (result: bool)
    ensures
        result == object_store::all_covered::<RawNodeId>(
            names@,
            shard_ids(shards_view(shards@)),
        ),
        object_store::all_named::<RawNodeId>(names@, shard_ids(shards_view(shards@))) ==> result,
{
    let listed = listed_ids(shards);
    bodies_are_covered(names, listed.as_slice())
}

/// Whether the lists of embeddings hold every embedding of a store, given the
/// names of the embeddings' files without their ending.
pub fn embedding_indexes_are_complete<I: FileId>(
    names: &[String],
    manifests: &[Manifest<I>],
) -> (result: bool)
    ensures
        result == object_store::all_covered::<I>(
            names@,
            manifests_ids(order::views(manifests@)),
        ),
        object_store::all_named::<I>(names@, manifests_ids(order::views(manifests@))) ==> result,
{
    let listed = embedded_ids(manifests);
    bodies_are_covered(names, listed.as_slice())
}

/// Whether the lists of embeddings, as far as they can be read, hold every
/// embedding of a store, given the names of the embeddings' files without their
/// ending. A list of another shape holds nothing for certain, so that it is
/// complete only where there are no embeddings.
pub fn embeddings_are_listed<I: FileId>(
    names: &[String],
    manifests: &[Option<Manifest<I>>],
) -> (result: bool)
    ensures
        result == (names@.len() == 0 || (all_readable(manifests@) && object_store::all_covered::<I>(
            names@,
            manifests_ids(readable_views(manifests@)),
        ))),
        all_readable(manifests@) && object_store::all_named::<I>(
            names@,
            manifests_ids(readable_views(manifests@)),
        ) ==> result,
{
    if names.len() == 0 {
        return true;
    }
    let ghost all = readable_views(manifests@);
    let mut listed: Vec<I> = Vec::new();
    let mut index: usize = 0;
    assert(all.take(0) =~= Seq::<Seq<I::V>>::empty());
    assert(order::views(listed@) =~= Seq::<I::V>::empty());
    while index < manifests.len()
        invariant
            0 < names@.len(),
            index <= manifests.len(),
            all == readable_views(manifests@),
            forall|i: int| 0 <= i < index ==> (#[trigger] manifests@[i]) is Some,
            order::views(listed@) == manifests_ids(all.take(index as int)),
        decreases manifests.len() - index,
    {
        match &manifests[index] {
            Some(manifest) => {
                append_ids(&mut listed, manifest.ids.as_slice());
                proof {
                    assert(all.take(index + 1).drop_last() =~= all.take(index as int));
                    assert(all.take(index + 1).last() == manifest@);
                }
            },
            None => {
                return false;
            },
        }
        index = index + 1;
    }
    assert(all.take(all.len() as int) =~= all);
    bodies_are_covered(names, listed.as_slice())
}

/// What became of reading the file of an index.
#[derive(Debug, PartialEq, Eq)]
pub enum IndexFile {
    Missing,
    Failed,
    Read(Vec<u8>),
}

/// Whether an index can be read: its file is missing, or holds JSON.
pub open spec fn is_readable(file: IndexFile) -> bool {
    match file {
        IndexFile::Missing => true,
        IndexFile::Failed => false,
        IndexFile::Read(payload) => json::json_is_readable(payload@),
    }
}

/// Whether all indexes that reads depend on can be read.
pub fn indexes_are_readable(files: &[IndexFile]) -> (result: bool)
    ensures
        result == (forall|i: int| 0 <= i < files@.len() ==> is_readable(#[trigger] files@[i])),
{
    let mut index: usize = 0;
    while index < files.len()
        invariant
            index <= files.len(),
            forall|i: int| 0 <= i < index ==> is_readable(#[trigger] files@[i]),
        decreases files.len() - index,
    {
        let readable = match &files[index] {
            IndexFile::Missing => true,
            IndexFile::Failed => false,
            IndexFile::Read(payload) => reads_as_json(payload.as_slice()),
        };
        if !readable {
            assert(!is_readable(files@[index as int]));
            return false;
        }
        index = index + 1;
    }
    true
}

proof fn shard_ids_hold(shards: Seq<Seq<RawIndexEntry>>, s: int, k: int)
    requires
        0 <= s < shards.len(),
        0 <= k < shards[s].len(),
    ensures
        shard_ids(shards).contains(shards[s][k].id),
    decreases shards.len(),
{
    let all = shard_ids(shards);
    let earlier = shard_ids(shards.drop_last());
    let last = shards.last().map_values(|entry: RawIndexEntry| entry.id);
    if s == shards.len() - 1 {
        assert(last[k] == shards[s][k].id);
        assert(all[earlier.len() + k] == last[k]);
    } else {
        shard_ids_hold(shards.drop_last(), s, k);
        let m = choose|m: int| 0 <= m < earlier.len() && earlier[m] == shards[s][k].id;
        assert(all[m] == earlier[m]);
    }
}

proof fn manifests_ids_hold<V>(manifests: Seq<Seq<V>>, value: V)
    ensures
        manifests_ids(manifests).contains(value) <==> exists|s: int|
            0 <= s < manifests.len() && (#[trigger] manifests[s]).contains(value),
    decreases manifests.len(),
{
    if manifests.len() > 0 {
        let all = manifests_ids(manifests);
        let rest = manifests.drop_last();
        let earlier = manifests_ids(rest);
        let last = manifests.last();
        manifests_ids_hold(rest, value);
        if all.contains(value) {
            let m = choose|m: int| 0 <= m < all.len() && all[m] == value;
            if m < earlier.len() {
                assert(earlier[m] == value);
                let s = choose|s: int| 0 <= s < rest.len() && (#[trigger] rest[s]).contains(value);
                assert(manifests[s] == rest[s]);
            } else {
                assert(last[m - earlier.len()] == value);
                assert(manifests[manifests.len() - 1].contains(value));
            }
        }
        if exists|s: int| 0 <= s < manifests.len() && (#[trigger] manifests[s]).contains(value) {
            let s = choose|s: int|
                0 <= s < manifests.len() && (#[trigger] manifests[s]).contains(value);
            if s < rest.len() {
                assert(rest[s] == manifests[s]);
                assert(earlier.contains(value));
                let m = choose|m: int| 0 <= m < earlier.len() && earlier[m] == value;
                assert(all[m] == value);
            } else {
                let m = choose|m: int| 0 <= m < last.len() && last[m] == value;
                assert(all[earlier.len() + m] == value);
            }
        }
    }
}

/// Whether no two nodes share an identifier.
pub open spec fn ids_are_apart(nodes: Seq<Raw>) -> bool {
    forall|i: int, j: int|
        0 <= i < j < nodes.len() ==> (#[trigger] nodes[i]).id != (#[trigger] nodes[j]).id
}

proof fn listed_entries_come_from(nodes: Seq<Raw>, index: Index, m: int) -> (i: int)
    requires
        0 <= m < object_index::listed_entries(nodes, index).len(),
    ensures
        0 <= i < nodes.len(),
        object_index::lists(index, nodes[i]),
        object_index::listed_entries(nodes, index)[m] == RawIndexEntry::entry(nodes[i]),
    decreases nodes.len(),
{
    let rest = nodes.drop_last();
    let earlier = object_index::listed_entries(rest, index);
    if m < earlier.len() {
        listed_entries_come_from(rest, index, m)
    } else {
        nodes.len() - 1
    }
}

/// Entries are listed in the order of the nodes, so that nodes apart have
/// entries apart.
proof fn listed_entries_are_apart(nodes: Seq<Raw>, index: Index)
    requires
        ids_are_apart(nodes),
    ensures
        forall|a: int, b: int|
            0 <= a < b < object_index::listed_entries(nodes, index).len() ==> (
            #[trigger] object_index::listed_entries(nodes, index)[a]).id != (
            #[trigger] object_index::listed_entries(nodes, index)[b]).id,
    decreases nodes.len(),
{
    if nodes.len() > 0 {
        let rest = nodes.drop_last();
        let all = object_index::listed_entries(nodes, index);
        let earlier = object_index::listed_entries(rest, index);
        assert(ids_are_apart(rest)) by {
            assert forall|i: int, j: int| 0 <= i < j < rest.len() implies (#[trigger] rest[i]).id
                != (#[trigger] rest[j]).id by {
                assert(nodes[i].id != nodes[j].id);
            }
        }
        listed_entries_are_apart(rest, index);
        assert forall|a: int, b: int| 0 <= a < b < all.len() implies (#[trigger] all[a]).id != (
        #[trigger] all[b]).id by {
            assert(all[a] == earlier[a]);
            if b < earlier.len() {
                assert(all[b] == earlier[b]);
            } else {
                let i = listed_entries_come_from(rest, index, a);
                assert(nodes[i].id != nodes[nodes.len() - 1].id);
            }
        }
    }
}

/// Sorted entries of different nodes stand in strict order.
proof fn entries_apart_are_strict(entries: Seq<RawIndexEntry>)
    requires
        forall|a: int, b: int|
            0 <= a < b < entries.len() ==> (#[trigger] entries[a]).id != (#[trigger] entries[b]).id,
    ensures
        order::is_strictly_ordered(
            timeline::entry_order(),
            order::ordered(timeline::entry_order(), entries),
        ),
        forall|entry: RawIndexEntry| #[trigger]
            order::ordered(timeline::entry_order(), entries).contains(entry) <==> entries.contains(
                entry,
            ),
{
    broadcast use vstd::seq_lib::group_to_multiset_ensures;

    let before = timeline::entry_order();
    let sorted = order::ordered(before, entries);
    timeline::entry_orders_are_total();
    assert(order::all_are(|entry: RawIndexEntry| true, entries));
    order::ordered_is_ordered(before, |entry: RawIndexEntry| true, entries);
    order::ordered_keeps_values(before, entries);
    assert(entries.no_duplicates());
    entries.lemma_multiset_has_no_duplicates();
    assert forall|entry: RawIndexEntry| #[trigger] sorted.contains(entry)
        <==> entries.contains(entry) by {
        assert(sorted.contains(entry) <==> sorted.to_multiset().count(entry) > 0);
        assert(entries.contains(entry) <==> entries.to_multiset().count(entry) > 0);
    }
    sorted.lemma_multiset_has_no_duplicates_conv();
    assert forall|i: int, j: int| 0 <= i < j < sorted.len() implies before(
        #[trigger] sorted[i],
        #[trigger] sorted[j],
    ) by {
        assert(sorted[i] != sorted[j]);
        assert(!before(sorted[j], sorted[i]));
    }
}

proof fn scanning_keeps_nodes(nodes: Seq<Raw>)
    requires
        ids_are_apart(nodes),
    ensures
        ids_are_apart(object_rebuild::scanned(nodes)),
        forall|node: Raw| #[trigger]
            object_rebuild::scanned(nodes).contains(node) <==> nodes.contains(node),
        order::is_strictly_ordered(
            object_rebuild::raw_scan_order(),
            object_rebuild::scanned(nodes),
        ),
{
    broadcast use vstd::seq_lib::group_to_multiset_ensures;

    let before = object_rebuild::raw_scan_order();
    let sorted = object_rebuild::scanned(nodes);
    order::ordered_keeps_values(before, nodes);
    assert(order::is_weak_order(before, |node: Raw| true));
    assert(order::all_are(|node: Raw| true, nodes));
    order::ordered_is_ordered(before, |node: Raw| true, nodes);
    assert forall|node: Raw| #[trigger] sorted.contains(node) <==> nodes.contains(node) by {
        assert(sorted.contains(node) <==> sorted.to_multiset().count(node) > 0);
        assert(nodes.contains(node) <==> nodes.to_multiset().count(node) > 0);
    }
    assert(nodes.no_duplicates());
    nodes.lemma_multiset_has_no_duplicates();
    assert(sorted.to_multiset() == nodes.to_multiset());
    sorted.lemma_multiset_has_no_duplicates_conv();
    assert forall|i: int, j: int| 0 <= i < j < sorted.len() implies (#[trigger] sorted[i]).id != (
    #[trigger] sorted[j]).id by {
        assert(sorted.contains(sorted[i]) && sorted.contains(sorted[j]));
        let a = choose|a: int| 0 <= a < nodes.len() && nodes[a] == sorted[i];
        let b = choose|b: int| 0 <= b < nodes.len() && nodes[b] == sorted[j];
        assert(sorted[i] != sorted[j]);
        if a < b {
            assert(nodes[a].id != nodes[b].id);
        } else {
            assert(nodes[b].id != nodes[a].id);
        }
    }
    assert forall|i: int, j: int| 0 <= i < j < sorted.len() implies before(
        #[trigger] sorted[i],
        #[trigger] sorted[j],
    ) by {
        assert(!before(sorted[j], sorted[i]));
        assert(sorted[i].id != sorted[j].id);
        assert(sorted[i].id.0.bits != sorted[j].id.0.bits);
    }
}

/// A rebuilt index holds the nodes that it should list, each once and in order,
/// and nothing else.
pub proof fn rebuilt_indexes_hold_their_nodes(nodes: Seq<Raw>, index: Index)
    requires
        ids_are_apart(nodes),
    ensures
        ({
            let held = object_index::index_of(object_rebuild::scanned(nodes), index);
            &&& order::is_strictly_ordered(timeline::entry_order(), held)
            &&& forall|entry: RawIndexEntry| #[trigger]
                held.contains(entry) <==> exists|i: int|
                    0 <= i < nodes.len() && object_index::lists(index, #[trigger] nodes[i])
                        && RawIndexEntry::entry(nodes[i]) == entry
        }),
{
    let sorted = object_rebuild::scanned(nodes);
    let listed = object_index::listed_entries(sorted, index);
    let held = object_index::index_of(sorted, index);
    scanning_keeps_nodes(nodes);
    listed_entries_are_apart(sorted, index);
    entries_apart_are_strict(listed);
    assert forall|entry: RawIndexEntry| #[trigger] held.contains(entry) <==> exists|i: int|
        0 <= i < nodes.len() && object_index::lists(index, #[trigger] nodes[i])
            && RawIndexEntry::entry(nodes[i]) == entry by {
        if held.contains(entry) {
            let m = choose|m: int| 0 <= m < listed.len() && listed[m] == entry;
            let k = listed_entries_come_from(sorted, index, m);
            assert(sorted.contains(sorted[k]));
            let i = choose|i: int| 0 <= i < nodes.len() && nodes[i] == sorted[k];
            assert(object_index::lists(index, nodes[i]));
        }
        if exists|i: int|
            0 <= i < nodes.len() && object_index::lists(index, #[trigger] nodes[i])
                && RawIndexEntry::entry(nodes[i]) == entry {
            let i = choose|i: int|
                0 <= i < nodes.len() && object_index::lists(index, #[trigger] nodes[i])
                    && RawIndexEntry::entry(nodes[i]) == entry;
            assert(nodes.contains(nodes[i]));
            assert(sorted.contains(nodes[i]));
            let k = choose|k: int| 0 <= k < sorted.len() && sorted[k] == nodes[i];
            object_rebuild::listed_nodes_have_entries(sorted, index, k);
        }
    }
}

/// The timelines of a rebuilt store list every node, so that they pass for
/// complete.
pub proof fn rebuilt_nodes_are_listed(nodes: Seq<Raw>, indexes: RawIndexes, i: int)
    requires
        indexes.describe(object_rebuild::scanned(nodes)),
        0 <= i < nodes.len(),
    ensures
        object_store::is_named::<RawNodeId>(
            ids::hyphenated(nodes[i].id.0.bits),
            shard_ids(in_memory::values(indexes.timeline@)),
        ),
{
    let node = nodes[i];
    let day = object_index::bucket(node.timestamp);
    let shards = in_memory::values(indexes.timeline@);
    object_rebuild::rebuilt_timelines_are_complete(nodes, i);
    assert(table::lookup(indexes.timeline@, day) == object_rebuild::shelf(
        object_rebuild::scanned(nodes),
        Index::Timeline(day),
    ));
    let s = table::position(indexes.timeline@, day) as int;
    let shelf = table::lookup(indexes.timeline@, day)->0;
    assert(shards[s] == shelf);
    let k = choose|k: int| 0 <= k < shelf.len() && shelf[k] == RawIndexEntry::entry(node);
    shard_ids_hold(shards, s, k);
    assert(RawNodeId::of_bits(node.id.0.bits) == node.id);
}

/// The embeddings of a session are those that were read for it.
pub proof fn owned_holds<I: View>(owners: Seq<EmbeddingOwner<I>>, shard: Shard, value: I::V)
    ensures
        object_store::owned(owners, shard).contains(value) <==> exists|i: int|
            0 <= i < owners.len() && (#[trigger] owners[i]).session_id == shard.0 && owners[i].id@
                == value,
    decreases owners.len(),
{
    if owners.len() > 0 {
        let rest = owners.drop_last();
        let all = object_store::owned(owners, shard);
        let earlier = object_store::owned(rest, shard);
        owned_holds(rest, shard, value);
        if all.contains(value) {
            let m = choose|m: int| 0 <= m < all.len() && all[m] == value;
            if m < earlier.len() {
                assert(earlier[m] == value);
                let i = choose|i: int|
                    0 <= i < rest.len() && (#[trigger] rest[i]).session_id == shard.0
                        && rest[i].id@ == value;
                assert(owners[i] == rest[i]);
            } else {
                assert(owners[owners.len() - 1].id@ == value);
            }
        }
        if exists|i: int|
            0 <= i < owners.len() && (#[trigger] owners[i]).session_id == shard.0 && owners[i].id@
                == value {
            let i = choose|i: int|
                0 <= i < owners.len() && (#[trigger] owners[i]).session_id == shard.0
                    && owners[i].id@ == value;
            if i < rest.len() {
                assert(rest[i] == owners[i]);
                assert(earlier.contains(value));
                let m = choose|m: int| 0 <= m < earlier.len() && earlier[m] == value;
                assert(all[m] == value);
            } else {
                assert(all[all.len() - 1] == value);
            }
        }
    }
}

/// The lists of a rebuilt store hold exactly the embeddings, so that they pass
/// for complete.
pub proof fn rebuilt_embeddings_are_listed<I: FileId>(
    before: spec_fn(I::V, I::V) -> bool,
    owners: Seq<EmbeddingOwner<I>>,
    lists: Seq<Pair<Shard, Seq<I::V>>>,
)
    requires
        order::is_weak_order(before, |value: I::V| true),
        forall|a: I::V, b: I::V| !#[trigger] before(a, b) && !before(b, a) ==> a == b,
        table::is_table(lists),
        forall|shard: Shard| #[trigger]
            table::lookup(lists, shard) == object_store::rebuilt_manifest(before, owners, shard),
    ensures
        forall|value: I::V| #[trigger]
            manifests_ids(in_memory::values(lists)).contains(value) <==> exists|i: int|
                0 <= i < owners.len() && (#[trigger] owners[i]).id@ == value,
        forall|bits: u128, i: int|
            0 <= i < owners.len() && (#[trigger] owners[i]).id@ == #[trigger] I::of_bits(bits)
                ==> object_store::is_named::<I>(
                ids::hyphenated(bits),
                manifests_ids(in_memory::values(lists)),
            ),
{
    let values = in_memory::values(lists);
    assert forall|value: I::V| #[trigger] manifests_ids(values).contains(value) <==> exists|i: int|
        0 <= i < owners.len() && (#[trigger] owners[i]).id@ == value by {
        manifests_ids_hold(values, value);
        if manifests_ids(values).contains(value) {
            let s = choose|s: int| 0 <= s < values.len() && (#[trigger] values[s]).contains(value);
            let shard = lists[s].key;
            assert forall|k: int| 0 <= k < s implies (#[trigger] lists[k]).key != shard by {
                assert(lists[k].key != lists[s].key);
            }
            table::first_is_position(lists, shard, s as nat);
            assert(table::lookup(lists, shard) == Some(values[s]));
            order::distinct_is_strict(before, object_store::owned(owners, shard));
            owned_holds(owners, shard, value);
        }
        if exists|i: int| 0 <= i < owners.len() && (#[trigger] owners[i]).id@ == value {
            let i = choose|i: int| 0 <= i < owners.len() && (#[trigger] owners[i]).id@ == value;
            let shard = Shard(owners[i].session_id);
            owned_holds(owners, shard, value);
            order::distinct_is_strict(before, object_store::owned(owners, shard));
            assert(table::lookup(lists, shard) is Some);
            let s = table::position(lists, shard) as int;
            assert(values[s] == table::lookup(lists, shard)->0);
            assert(values[s].contains(value));
        }
    }
    assert forall|bits: u128, i: int|
        0 <= i < owners.len() && (#[trigger] owners[i]).id@ == #[trigger] I::of_bits(
            bits,
        ) implies object_store::is_named::<I>(ids::hyphenated(bits), manifests_ids(values)) by {
        assert(manifests_ids(values).contains(I::of_bits(bits)));
    }
}

/// Rebuilding again gives the same indexes, in whatever order the nodes are
/// found.
pub proof fn rebuilds_agree(left: Seq<Raw>, right: Seq<Raw>, first: RawIndexes, second: RawIndexes)
    requires
        ids_are_apart(left),
        ids_are_apart(right),
        forall|node: Raw| #[trigger] left.contains(node) <==> right.contains(node),
        first.describe(object_rebuild::scanned(left)),
        second.describe(object_rebuild::scanned(right)),
    ensures
        forall|day: Seq<char>| #[trigger]
            table::lookup(first.timeline@, day) == table::lookup(second.timeline@, day),
        forall|id: SessionId| #[trigger]
            table::lookup(first.sessions@, id) == table::lookup(second.sessions@, id),
        forall|id: LoopId| #[trigger]
            table::lookup(first.loops@, id) == table::lookup(second.loops@, id),
        first.undistilled@ == second.undistilled@,
        first.pushed_undistilled@ == second.pushed_undistilled@,
        first.operations@ == second.operations@,
{
    scanning_keeps_nodes(left);
    scanning_keeps_nodes(right);
    let a = object_rebuild::scanned(left);
    let b = object_rebuild::scanned(right);
    assert(order::is_weak_order(object_rebuild::raw_scan_order(), |node: Raw| true));
    assert forall|node: Raw| #[trigger] a.contains(node) <==> b.contains(node) by {
        assert(left.contains(node) <==> right.contains(node));
    }
    order::strict_order_is_unique(object_rebuild::raw_scan_order(), a, b);
}

/// An index can be read where its file is missing or holds JSON, and what lists
/// are to hold is every name, read as an identifier; a name that is none is never
/// held.
pub proof fn complete_lists_hold_every_name<I: FileId>(
    file: IndexFile,
    names: Seq<String>,
    indexed: Seq<I::V>,
)
    ensures
        is_readable(file) <==> file is Missing || (file matches IndexFile::Read(payload)
            && json::json_is_readable(payload@)),
        object_store::all_covered::<I>(names, indexed) <==> forall|i: int|
            0 <= i < names.len() ==> {
                let read = ids::parsed_uuid((#[trigger] names[i])@);
                read is Ok && indexed.contains(I::of_bits(read->Ok_0))
            },
{
    if object_store::all_covered::<I>(names, indexed) {
        assert forall|i: int| 0 <= i < names.len() implies {
            let read = ids::parsed_uuid((#[trigger] names[i])@);
            read is Ok && indexed.contains(I::of_bits(read->Ok_0))
        } by {
            assert(object_store::is_covered::<I>(names[i]@, indexed));
        }
    }
}

} // verus!
