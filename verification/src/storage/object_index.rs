//! The indexes of a store on disk: how they follow the nodes, how they are
//! rebuilt and when they are trusted.
use vstd::prelude::*;

use crate::domain::raw_node::{DistillationState, Raw, RawNode};
use crate::ids::{LoopId, RawNodeId, SessionId};
use crate::order;
use crate::order::sort_by;
use crate::storage::in_memory;
use crate::storage::timeline;
use crate::storage::timeline::{EntryOrder, RawIndexEntry};
use crate::time;
use crate::time::{Timestamp, MAX_SECONDS, MIN_SECONDS};

verus! {

/// Whether an instant lies in the calendar, so that it has a day.
pub open spec fn in_calendar(instant: Timestamp) -> bool {
    MIN_SECONDS <= instant.secs <= MAX_SECONDS
}

/// The day of an instant, by which timelines are divided.
pub open spec fn bucket(instant: Timestamp) -> Seq<char> {
    time::day_bucket(instant.secs)->0
}

/// Names the day of an instant.
pub fn timeline_bucket(instant: &Timestamp) -> (result: String)
    requires
        in_calendar(*instant),
    ensures
        time::day_bucket(instant.secs) == Some(result@),
        result@ == bucket(*instant),
        time::has_four_digit_year(instant.secs) ==> time::days_read_in_order(instant.secs, result@),
{
    match instant.day() {
        Some(day) => day,
        None => String::new(),
    }
}

/// Sorts the entries of an index.
pub fn sort_raw_index_entries(entries: Vec<RawIndexEntry>) -> (result: Vec<RawIndexEntry>)
    ensures
        result@ == order::ordered(timeline::entry_order(), entries@),
{
    let ghost given = entries@;
    assert(order::views(entries@) =~= given);
    let result = sort_by(entries, &EntryOrder);
    assert(order::order_of::<RawIndexEntry, EntryOrder>(&EntryOrder) =~= timeline::entry_order());
    assert(order::views(result@) =~= result@);
    result
}

/// The entries but those of one node.
pub open spec fn without(entries: Seq<RawIndexEntry>, id: RawNodeId) -> Seq<RawIndexEntry> {
    entries.filter(|entry: RawIndexEntry| entry.id != id)
}

/// The entries with one in place of those that its node had.
pub open spec fn upserted(entries: Seq<RawIndexEntry>, entry: RawIndexEntry) -> Seq<
    RawIndexEntry,
> {
    order::ordered(timeline::entry_order(), without(entries, entry.id).push(entry))
}

/// Drops the entries of a node.
pub fn remove_raw_index_entry(entries: &[RawIndexEntry], id: RawNodeId) -> (result: Vec<
    RawIndexEntry,
>)
    ensures
        result@ == without(entries@, id),
{
    let ghost kind = |entry: RawIndexEntry| entry.id != id;
    let mut result: Vec<RawIndexEntry> = Vec::new();
    let mut index: usize = 0;
    proof {
        reveal(Seq::filter);
        assert(entries@.take(0) =~= Seq::<RawIndexEntry>::empty());
    }
    while index < entries.len()
        invariant
            index <= entries.len(),
            kind == (|entry: RawIndexEntry| entry.id != id),
            result@ == entries@.take(index as int).filter(kind),
        decreases entries.len() - index,
    {
        proof {
            reveal(Seq::filter);
            assert(entries@.take(index + 1).drop_last() =~= entries@.take(index as int));
        }
        if entries[index].id != id {
            result.push(entries[index]);
        }
        index = index + 1;
    }
    assert(entries@.take(entries@.len() as int) =~= entries@);
    result
}

/// Puts an entry in place of those that its node had.
pub fn upsert_raw_index_entry(entries: &[RawIndexEntry], entry: RawIndexEntry) -> (result: Vec<
    RawIndexEntry,
>)
    ensures
        result@ == upserted(entries@, entry),
{
    let mut rest = remove_raw_index_entry(entries, entry.id);
    rest.push(entry);
    sort_raw_index_entries(rest)
}

/// An index of raw nodes.
#[derive(Debug, PartialEq, Eq)]
pub enum IndexName {
    Session(SessionId),
    Loop(LoopId),
    Undistilled,
    PushedUndistilled,
    /// The timeline of a day.
    Timeline(String),
}

/// An index of raw nodes as a mathematical value.
pub enum Index {
    Session(SessionId),
    Loop(LoopId),
    Undistilled,
    PushedUndistilled,
    Timeline(Seq<char>),
}

impl View for IndexName {
    type V = Index;

    open spec fn view(&self) -> Index {
        match self {
            IndexName::Session(id) => Index::Session(*id),
            IndexName::Loop(id) => Index::Loop(*id),
            IndexName::Undistilled => Index::Undistilled,
            IndexName::PushedUndistilled => Index::PushedUndistilled,
            IndexName::Timeline(day) => Index::Timeline(day@),
        }
    }
}

/// What has to happen to an index when a node was written.
#[derive(Debug, PartialEq, Eq)]
pub enum IndexWrite {
    Upsert(IndexName),
    Remove(IndexName),
}

/// What has to happen to an index, as a mathematical value.
pub enum Write {
    Upsert(Index),
    Remove(Index),
}

impl View for IndexWrite {
    type V = Write;

    open spec fn view(&self) -> Write {
        match self {
            IndexWrite::Upsert(name) => Write::Upsert(name@),
            IndexWrite::Remove(name) => Write::Remove(name@),
        }
    }
}

/// Whether an index lists a node.
pub open spec fn lists(index: Index, node: Raw) -> bool {
    match index {
        Index::Session(id) => node.session_id == Some(id),
        Index::Loop(id) => node.loop_id == Some(id),
        Index::Undistilled => in_memory::is_backlog(node, false),
        Index::PushedUndistilled => in_memory::is_backlog(node, true),
        Index::Timeline(day) => bucket(node.timestamp) == day,
    }
}

/// The writes to the indexes other than the timeline.
pub open spec fn secondary_writes(node: Raw) -> Seq<Write> {
    let session = match node.session_id {
        Some(id) => seq![Write::Upsert(Index::Session(id))],
        None => Seq::empty(),
    };
    let in_loop = match node.loop_id {
        Some(id) => seq![Write::Upsert(Index::Loop(id))],
        None => Seq::empty(),
    };
    let undistilled = if in_memory::is_backlog(node, false) {
        Write::Upsert(Index::Undistilled)
    } else {
        Write::Remove(Index::Undistilled)
    };
    let pushed = if in_memory::is_backlog(node, true) {
        Write::Upsert(Index::PushedUndistilled)
    } else {
        Write::Remove(Index::PushedUndistilled)
    };
    session + in_loop + seq![undistilled, pushed]
}

/// The writes to all indexes, in order: the timeline comes last.
pub open spec fn all_writes(node: Raw) -> Seq<Write> {
    secondary_writes(node).push(Write::Upsert(Index::Timeline(bucket(node.timestamp))))
}

/// Plans what happens to the indexes once a node was written. A node that the
/// timeline lists is listed everywhere, since the timeline is written last.
pub fn index_writes(node: &RawNode) -> (writes: Vec<IndexWrite>)
    requires
        in_calendar(node.timestamp),
    ensures
        order::views(writes@) == all_writes(node@),
{
    let mut writes: Vec<IndexWrite> = Vec::new();
    if let Some(session_id) = node.session_id {
        writes.push(IndexWrite::Upsert(IndexName::Session(session_id)));
    }
    if let Some(loop_id) = node.loop_id {
        writes.push(IndexWrite::Upsert(IndexName::Loop(loop_id)));
    }
    let undistilled = !(node.distillation_state == DistillationState::Distilled);
    if undistilled {
        writes.push(IndexWrite::Upsert(IndexName::Undistilled));
    } else {
        writes.push(IndexWrite::Remove(IndexName::Undistilled));
    }
    if undistilled && node.overflow.was_pushed_out_of_session {
        writes.push(IndexWrite::Upsert(IndexName::PushedUndistilled));
    } else {
        writes.push(IndexWrite::Remove(IndexName::PushedUndistilled));
    }
    writes.push(IndexWrite::Upsert(IndexName::Timeline(timeline_bucket(&node.timestamp))));
    assert(order::views(writes@) =~= all_writes(node@));
    writes
}

/// However far the writes for a node got, once the timeline lists it every
/// other index that should list it does.
pub proof fn timeline_is_written_last(node: Raw, done: int, index: Index)
    requires
        0 <= done <= all_writes(node).len(),
        all_writes(node).take(done).contains(
            Write::Upsert(Index::Timeline(bucket(node.timestamp))),
        ),
        lists(index, node),
    ensures
        all_writes(node).take(done).contains(Write::Upsert(index)),
{
    let all = all_writes(node);
    let secondary = secondary_writes(node);
    let last = Write::Upsert(Index::Timeline(bucket(node.timestamp)));
    let k = choose|k: int| 0 <= k < done && all.take(done)[k] == last;
    assert(all[k] == last);
    if k < secondary.len() {
        assert(secondary[k] == last);
    }
    assert(done == all.len());
    assert(all.take(done) =~= all);
    assert(all[all.len() - 1] == last);
    let session = match node.session_id {
        Some(id) => seq![Write::Upsert(Index::Session(id))],
        None => Seq::empty(),
    };
    let in_loop = match node.loop_id {
        Some(id) => seq![Write::Upsert(Index::Loop(id))],
        None => Seq::empty(),
    };
    let base = (session.len() + in_loop.len()) as int;
    match index {
        Index::Session(id) => {
            assert(all[0] == Write::Upsert(index));
        },
        Index::Loop(id) => {
            assert(all[session.len() as int] == Write::Upsert(index));
        },
        Index::Undistilled => {
            assert(all[base] == Write::Upsert(index));
        },
        Index::PushedUndistilled => {
            assert(all[base + 1] == Write::Upsert(index));
        },
        Index::Timeline(day) => {
            assert(all[all.len() - 1] == Write::Upsert(index));
        },
    }
}

/// The entries of the nodes that an index lists.
pub open spec fn listed_entries(nodes: Seq<Raw>, index: Index) -> Seq<RawIndexEntry>
    decreases nodes.len(),
{
    if nodes.len() == 0 {
        Seq::empty()
    } else {
        let rest = listed_entries(nodes.drop_last(), index);
        if lists(index, nodes.last()) {
            rest.push(RawIndexEntry::entry(nodes.last()))
        } else {
            rest
        }
    }
}

/// What an index holds of nodes.
pub open spec fn index_of(nodes: Seq<Raw>, index: Index) -> Seq<RawIndexEntry> {
    order::ordered(timeline::entry_order(), listed_entries(nodes, index))
}

/// What an index holds once the writes for a node were made.
pub open spec fn synced(entries: Seq<RawIndexEntry>, index: Index, node: Raw) -> Seq<
    RawIndexEntry,
> {
    if all_writes(node).contains(Write::Upsert(index)) {
        upserted(entries, RawIndexEntry::entry(node))
    } else if all_writes(node).contains(Write::Remove(index)) {
        without(entries, node.id)
    } else {
        entries
    }
}

/// What an index holds once the writes for nodes were made, one after the
/// other.
pub open spec fn synced_all(nodes: Seq<Raw>, index: Index) -> Seq<RawIndexEntry>
    decreases nodes.len(),
{
    if nodes.len() == 0 {
        Seq::empty()
    } else {
        synced(synced_all(nodes.drop_last(), index), index, nodes.last())
    }
}

/// A write puts a node into exactly the indexes that list it.
pub proof fn writes_match_lists(node: Raw, index: Index)
    ensures
        all_writes(node).contains(Write::Upsert(index)) <==> lists(index, node),
{
    let all = all_writes(node);
    let secondary = secondary_writes(node);
    let last = Write::Upsert(Index::Timeline(bucket(node.timestamp)));
    assert(all[all.len() - 1] == last);
    assert(all.take(all.len() as int) =~= all);
    assert(all.contains(last));
    if lists(index, node) {
        timeline_is_written_last(node, all.len() as int, index);
    }
    if all.contains(Write::Upsert(index)) {
        let k = choose|k: int| 0 <= k < all.len() && all[k] == Write::Upsert(index);
        if k < secondary.len() {
            assert(secondary[k] == Write::Upsert(index));
        }
    }
}

/// No entry of another node.
proof fn absent_ids_leave_nothing_out(entries: Seq<RawIndexEntry>, id: RawNodeId)
    requires
        forall|i: int| 0 <= i < entries.len() ==> (#[trigger] entries[i]).id != id,
    ensures
        without(entries, id) == entries,
    decreases entries.len(),
{
    reveal(Seq::filter);
    if entries.len() > 0 {
        let rest = entries.drop_last();
        assert forall|i: int| 0 <= i < rest.len() implies (#[trigger] rest[i]).id != id by {
            assert(rest[i] == entries[i]);
        }
        absent_ids_leave_nothing_out(rest, id);
        assert(entries[entries.len() - 1] == entries.last());
        assert(without(entries, id) =~= entries);
    } else {
        assert(without(entries, id) =~= entries);
    }
}

/// An index holds entries of the given nodes only.
proof fn listed_entries_come_from(nodes: Seq<Raw>, index: Index, k: int)
    requires
        0 <= k < listed_entries(nodes, index).len(),
    ensures
        exists|i: int|
            0 <= i < nodes.len() && RawIndexEntry::entry(#[trigger] nodes[i]) == listed_entries(
                nodes,
                index,
            )[k],
    decreases nodes.len(),
{
    if nodes.len() > 0 {
        let rest = nodes.drop_last();
        let before = listed_entries(rest, index);
        if k < before.len() {
            listed_entries_come_from(rest, index, k);
            let i = choose|i: int|
                0 <= i < rest.len() && RawIndexEntry::entry(#[trigger] rest[i]) == before[k];
            assert(nodes[i] == rest[i]);
        } else {
            assert(nodes[nodes.len() - 1] == nodes.last());
        }
    }
}

/// Rebuilding the indexes gives what following the writes of the nodes one by
/// one gives.
pub proof fn rebuilding_repeats_the_writes(nodes: Seq<Raw>, index: Index)
    requires
        forall|i: int, j: int|
            0 <= i < j < nodes.len() ==> (#[trigger] nodes[i]).id != (#[trigger] nodes[j]).id,
    ensures
        synced_all(nodes, index) == index_of(nodes, index),
    decreases nodes.len(),
{
    broadcast use vstd::seq_lib::group_to_multiset_ensures;

    let before = timeline::entry_order();
    if nodes.len() > 0 {
        let rest = nodes.drop_last();
        let last = nodes.last();
        assert(nodes[nodes.len() - 1] == last);
        assert forall|i: int, j: int| 0 <= i < j < rest.len() implies (#[trigger] rest[i]).id != (
        #[trigger] rest[j]).id by {
            assert(nodes[i].id != nodes[j].id);
        }
        rebuilding_repeats_the_writes(rest, index);
        writes_match_lists(last, index);
        let listed = listed_entries(rest, index);
        let held = index_of(rest, index);
        order::ordered_keeps_values(before, listed);
        assert forall|k: int| 0 <= k < held.len() implies (#[trigger] held[k]).id != last.id by {
            assert(held.to_multiset().count(held[k]) > 0);
            assert(listed.to_multiset().count(held[k]) > 0);
            assert(listed.contains(held[k]));
            let m = choose|m: int| 0 <= m < listed.len() && listed[m] == held[k];
            listed_entries_come_from(rest, index, m);
            let i = choose|i: int|
                0 <= i < rest.len() && RawIndexEntry::entry(#[trigger] rest[i]) == listed[m];
            assert(nodes[i].id != nodes[nodes.len() - 1].id);
        }
        absent_ids_leave_nothing_out(held, last.id);
        if lists(index, last) {
            let entry = RawIndexEntry::entry(last);
            timeline::entry_orders_are_total();
            assert(held.push(entry).to_multiset() =~= listed.push(entry).to_multiset());
            order::sorting_forgets_arrival(before, held.push(entry), listed.push(entry));
        }
    } else {
        assert(index_of(nodes, index) =~= Seq::<RawIndexEntry>::empty());
    }
}

/// Once the writes for a node were made, an index that lists it holds its
/// entry and no other entry of it; one that drops it holds none; entries of
/// other nodes stay.
pub proof fn indexes_follow_nodes(entries: Seq<RawIndexEntry>, index: Index, node: Raw)
    ensures
        ({
            let after = synced(entries, index, node);
            &&& lists(index, node) ==> after.contains(RawIndexEntry::entry(node)) && forall|i: int|
                0 <= i < after.len() && (#[trigger] after[i]).id == node.id ==> after[i]
                    == RawIndexEntry::entry(node)
            &&& !lists(index, node) && (index is Undistilled || index is PushedUndistilled)
                ==> forall|i: int| 0 <= i < after.len() ==> (#[trigger] after[i]).id != node.id
            &&& forall|other: RawIndexEntry|
                other.id != node.id ==> (#[trigger] after.contains(other) <==> entries.contains(
                    other,
                ))
        }),
{
    broadcast use vstd::seq_lib::group_to_multiset_ensures;
    broadcast use vstd::seq_lib::group_filter_ensures;

    let after = synced(entries, index, node);
    let kind = |entry: RawIndexEntry| entry.id != node.id;
    let rest = without(entries, node.id);
    let entry = RawIndexEntry::entry(node);
    writes_match_lists(node, index);
    assert forall|other: RawIndexEntry| other.id != node.id implies (#[trigger] rest.contains(
        other,
    ) <==> entries.contains(other)) by {
        if entries.contains(other) {
            let k = choose|k: int| 0 <= k < entries.len() && entries[k] == other;
            assert(kind(entries[k]));
            assert(entries.filter(kind).contains(entries[k]));
        }
        if rest.contains(other) {
            filtered_comes_from(entries, kind, other);
        }
    }
    assert forall|i: int| 0 <= i < rest.len() implies (#[trigger] rest[i]).id != node.id by {
        assert(kind(entries.filter(kind)[i]));
    }
    if lists(index, node) {
        let grown = rest.push(entry);
        order::ordered_keeps_values(timeline::entry_order(), grown);
        assert(grown[rest.len() as int] == entry);
        assert forall|other: RawIndexEntry| #[trigger]
            after.contains(other) <==> grown.contains(other) by {
            assert(after.contains(other) <==> after.to_multiset().count(other) > 0);
            assert(grown.contains(other) <==> grown.to_multiset().count(other) > 0);
        }
        assert(grown.contains(entry));
        assert forall|i: int| 0 <= i < after.len() && (#[trigger] after[i]).id
            == node.id implies after[i] == entry by {
            assert(after.contains(after[i]));
            let k = choose|k: int| 0 <= k < grown.len() && grown[k] == after[i];
            if k < rest.len() {
                assert(rest[k].id != node.id);
            }
        }
        assert forall|other: RawIndexEntry| other.id != node.id implies (#[trigger] after.contains(
            other,
        ) <==> entries.contains(other)) by {
            assert(rest.contains(other) <==> entries.contains(other));
            if grown.contains(other) {
                let k = choose|k: int| 0 <= k < grown.len() && grown[k] == other;
                assert(rest[k] == other);
            }
            if rest.contains(other) {
                let k = choose|k: int| 0 <= k < rest.len() && rest[k] == other;
                assert(grown[k] == other);
            }
        }
    } else if index is Undistilled || index is PushedUndistilled {
        let all = all_writes(node);
        let secondary = secondary_writes(node);
        let k = if index is Undistilled {
            secondary.len() - 2
        } else {
            secondary.len() - 1
        };
        assert(all[k] == Write::Remove(index));
        assert(all.contains(Write::Remove(index)));
    } else {
        let all = all_writes(node);
        if all.contains(Write::Remove(index)) {
            let k = choose|k: int| 0 <= k < all.len() && all[k] == Write::Remove(index);
            assert(k < secondary_writes(node).len());
            assert(secondary_writes(node)[k] == Write::Remove(index));
        }
    }
}

/// What was kept was there.
proof fn filtered_comes_from(
    entries: Seq<RawIndexEntry>,
    kind: spec_fn(RawIndexEntry) -> bool,
    entry: RawIndexEntry,
)
    requires
        entries.filter(kind).contains(entry),
    ensures
        entries.contains(entry),
    decreases entries.len(),
{
    reveal(Seq::filter);
    if entries.len() > 0 {
        let rest = entries.drop_last();
        let kept = entries.filter(kind);
        let k = choose|k: int| 0 <= k < kept.len() && kept[k] == entry;
        if k < rest.filter(kind).len() {
            assert(rest.filter(kind)[k] == entry);
            filtered_comes_from(rest, kind, entry);
            let m = choose|m: int| 0 <= m < rest.len() && rest[m] == entry;
            assert(entries[m] == entry);
        } else {
            assert(entries[entries.len() - 1] == entry);
        }
    }
}

/// An index holds an entry for each node that it lists and no other, in order of
/// time and then of identifier: sessions and loops list their own nodes, the
/// backlogs list what was not distilled, of which one only what fell out of its
/// session, and a day lists what happened on it.
pub proof fn indexes_hold_their_nodes(nodes: Seq<Raw>, index: Index)
    ensures
        index_of(nodes, index).to_multiset() == nodes.filter(
            |node: Raw|
                match index {
                    Index::Session(id) => node.session_id == Some(id),
                    Index::Loop(id) => node.loop_id == Some(id),
                    Index::Undistilled => node.distillation_state != DistillationState::Distilled,
                    Index::PushedUndistilled => node.distillation_state
                        != DistillationState::Distilled && node.overflow.was_pushed_out_of_session,
                    Index::Timeline(day) => time::day_bucket(node.timestamp.secs)->0 == day,
                },
        ).map_values(
            |node: Raw| RawIndexEntry { id: node.id, timestamp: node.timestamp },
        ).to_multiset(),
        order::is_ordered(
            |left: RawIndexEntry, right: RawIndexEntry|
                left.timestamp.before(right.timestamp) || (left.timestamp == right.timestamp
                    && left.id.0.bits < right.id.0.bits),
            index_of(nodes, index),
        ),
{
    let any = |entry: RawIndexEntry| true;
    let listed = listed_entries(nodes, index);
    listed_entries_are_filtered(nodes, index);
    order::ordered_keeps_values(timeline::entry_order(), listed);
    timeline::entry_orders_are_total();
    assert(order::all_are(any, listed));
    order::ordered_is_ordered(timeline::entry_order(), any, listed);
    let plain = |left: RawIndexEntry, right: RawIndexEntry|
        left.timestamp.before(right.timestamp) || (left.timestamp == right.timestamp
            && left.id.0.bits < right.id.0.bits);
    let all = index_of(nodes, index);
    assert forall|i: int, j: int| 0 <= i < j < all.len() implies !plain(
        #[trigger] all[j],
        #[trigger] all[i],
    ) by {
        assert(!timeline::entry_order()(all[j], all[i]));
    }
}

proof fn listed_entries_are_filtered(nodes: Seq<Raw>, index: Index)
    ensures
        listed_entries(nodes, index) == nodes.filter(
            |node: Raw|
                match index {
                    Index::Session(id) => node.session_id == Some(id),
                    Index::Loop(id) => node.loop_id == Some(id),
                    Index::Undistilled => node.distillation_state != DistillationState::Distilled,
                    Index::PushedUndistilled => node.distillation_state
                        != DistillationState::Distilled && node.overflow.was_pushed_out_of_session,
                    Index::Timeline(day) => time::day_bucket(node.timestamp.secs)->0 == day,
                },
        ).map_values(|node: Raw| RawIndexEntry { id: node.id, timestamp: node.timestamp }),
    decreases nodes.len(),
{
    reveal(Seq::filter);
    if nodes.len() > 0 {
        listed_entries_are_filtered(nodes.drop_last(), index);
    }
    assert(listed_entries(nodes, index) =~= nodes.filter(
        |node: Raw|
            match index {
                Index::Session(id) => node.session_id == Some(id),
                Index::Loop(id) => node.loop_id == Some(id),
                Index::Undistilled => node.distillation_state != DistillationState::Distilled,
                Index::PushedUndistilled => node.distillation_state
                    != DistillationState::Distilled && node.overflow.was_pushed_out_of_session,
                Index::Timeline(day) => time::day_bucket(node.timestamp.secs)->0 == day,
            },
    ).map_values(|node: Raw| RawIndexEntry { id: node.id, timestamp: node.timestamp }));
}

} // verus!
