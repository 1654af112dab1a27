use takos_agent_engine::domain::abstract_node::{
    AbstractNode, AbstractNodeMetadata, GraphFragment, References,
};
use takos_agent_engine::domain::raw_node::{DistillationState, OverflowPolicy, RawNode, RawNodeKind};
use takos_agent_engine::error::EngineError;
use takos_agent_engine::float32::Float32;
use takos_agent_engine::ids::{
    AbstractNodeId, AbstractNodeIdOrder, LoopId, RawNodeId, RawNodeIdOrder, SessionId,
};
use takos_agent_engine::storage::layout::{
    abstract_embedding_path, abstract_embedding_shard_path, abstract_operation_path, abstract_path,
    checkpoint_path, encode_operation_key, graph_path, index_version_in, loop_index_path,
    raw_embedding_path, raw_embedding_shard_path, raw_operation_path, raw_path,
    raw_timeline_shard_path, read_index_version, session_index_path, INDEX_VERSION,
};
use takos_agent_engine::storage::object_complete::{
    embedding_indexes_are_complete, embeddings_are_listed, indexes_are_readable, IndexFile,
};
use takos_agent_engine::storage::object_index::{
    index_writes, remove_raw_index_entry, sort_raw_index_entries, timeline_bucket,
    upsert_raw_index_entry, IndexName, IndexWrite,
};
use takos_agent_engine::storage::object_rebuild::{
    rebuild_abstract_operations, rebuild_raw_indexes,
};
use takos_agent_engine::storage::object_store::{
    bodies_are_covered, manifest_ids, oldest_entries, rebuild_manifests, recent_entries,
    session_timeline, trusts_indexes, upsert_manifest_id, EmbeddingOwner, Manifest, Shard,
    StoreMetadata, TimelineMerge,
};
use takos_agent_engine::storage::records::{
    commit_abstract_once, commit_once, RawLifecyclePatch,
};
use takos_agent_engine::storage::timeline::RawIndexEntry;
use takos_agent_engine::time::{Timestamp, MAX_SECONDS, MIN_SECONDS};

const DAY: i64 = 86_400;

fn at(secs: i64) -> Timestamp {
    Timestamp { secs, nanos: 0 }
}

fn note(session_id: Option<SessionId>, loop_id: Option<LoopId>, secs: i64) -> RawNode {
    let mut node = RawNode::text(
        RawNodeKind::Note,
        session_id,
        loop_id,
        "system",
        "text",
        Float32::from_bits(0.5f32.to_bits()),
        Vec::new(),
    );
    node.timestamp = at(secs);
    node
}

fn summary(secs: i64) -> AbstractNode {
    let mut node = AbstractNode::new(
        "title",
        "summary",
        References::default(),
        GraphFragment::default(),
        AbstractNodeMetadata::default(),
    );
    node.timestamp = at(secs);
    node
}

fn entry(node: &RawNode) -> RawIndexEntry {
    RawIndexEntry::of(node)
}

/// The entries after the writes that a node calls for, on one index.
fn follow(entries: Vec<RawIndexEntry>, name: &IndexName, node: &RawNode) -> Vec<RawIndexEntry> {
    let mut entries = entries;
    for write in index_writes(node) {
        match write {
            IndexWrite::Upsert(written) if written == *name => {
                entries = upsert_raw_index_entry(&entries, entry(node));
            }
            IndexWrite::Remove(written) if written == *name => {
                entries = remove_raw_index_entry(&entries, node.id);
            }
            _ => {}
        }
    }
    entries
}

#[test]
fn objects_have_their_places() {
    let raw = RawNodeId::new();
    let node = AbstractNodeId::new();
    let session = SessionId::new();
    let in_loop = LoopId::new();
    assert_eq!(raw_path(&raw), format!("raw/{}.json", raw.to_string()));
    assert_eq!(abstract_path(&node), format!("abstract/{}.json", node.to_string()));
    assert_eq!(raw_embedding_path(&raw), format!("embeddings/raw/{}.json", raw.to_string()));
    assert_eq!(
        abstract_embedding_path(&node),
        format!("embeddings/abstract/{}.json", node.to_string())
    );
    assert_eq!(graph_path(&node), format!("graph/{}.json", node.to_string()));
    assert_eq!(
        checkpoint_path(&session, &in_loop),
        format!("checkpoints/{}--{}.json", session.to_string(), in_loop.to_string())
    );
    assert_eq!(
        session_index_path(&session),
        format!("indexes/session/{}.json", session.to_string())
    );
    assert_eq!(loop_index_path(&in_loop), format!("indexes/loop/{}.json", in_loop.to_string()));
    assert_eq!(raw_timeline_shard_path("19700102"), "indexes/timeline/raw/19700102.json");
    assert_eq!(raw_embedding_shard_path(None), "indexes/vector/raw/none.json");
    assert_eq!(
        raw_embedding_shard_path(Some(session)),
        format!("indexes/vector/raw/{}.json", session.to_string())
    );
    assert_eq!(abstract_embedding_shard_path(None), "indexes/vector/abstract/none.json");
    assert_eq!(raw_operation_path("a:b"), "indexes/raw_operation/613a62.json");
    assert_eq!(abstract_operation_path("a:b"), "indexes/abstract_operation/613a62.json");
}

#[test]
fn operation_keys_are_written_in_hexadecimal() {
    assert_eq!(encode_operation_key(""), "");
    assert_eq!(encode_operation_key("Az/~"), "417a2f7e");
    assert_eq!(encode_operation_key("é"), "c3a9");
    assert_ne!(encode_operation_key("a:b"), encode_operation_key("a/b"));
}

#[test]
fn version_markers_are_read() {
    assert_eq!(read_index_version(b"2"), Some(2));
    assert_eq!(read_index_version(b" 2\n"), Some(2));
    assert_eq!(read_index_version(b"+7"), Some(7));
    assert_eq!(read_index_version(b"4294967295"), Some(u32::MAX));
    assert_eq!(read_index_version(b"4294967296"), None);
    assert_eq!(read_index_version(b""), None);
    assert_eq!(read_index_version(b"two"), None);
    assert_eq!(read_index_version(b"\xe2\x80\x832"), Some(2));
    assert_eq!(read_index_version(b"2\xff"), None);
    assert_eq!(index_version_in("2"), Some(2));
    assert_eq!(index_version_in("2\u{fffd}"), None);
    assert_eq!(read_index_version(b"-1"), None);
}

#[test]
fn timelines_are_divided_by_days() {
    assert_eq!(timeline_bucket(&at(0)), "19700101");
    assert_eq!(timeline_bucket(&at(DAY - 1)), "19700101");
    assert_eq!(timeline_bucket(&at(DAY)), "19700102");
    assert_eq!(timeline_bucket(&at(-1)), "19691231");
    assert_eq!(timeline_bucket(&at(1_700_000_000)), "20231114");
    assert!(timeline_bucket(&at(1_700_000_000)) < timeline_bucket(&at(1_700_000_000 + DAY)));
}

#[test]
fn backlog_indexes_follow_the_writes() {
    let mut node = note(Some(SessionId::new()), Some(LoopId::new()), 5);
    let mut undistilled = follow(Vec::new(), &IndexName::Undistilled, &node);
    let mut pushed = follow(Vec::new(), &IndexName::PushedUndistilled, &node);
    assert_eq!(oldest_entries(undistilled.clone(), 10).len(), 1);
    assert_eq!(oldest_entries(pushed.clone(), 10).len(), 0);

    let patch = RawLifecyclePatch {
        distillation_state: None,
        overflow: Some(OverflowPolicy {
            was_pushed_out_of_session: true,
            relax_retrieval_until: None,
        }),
    };
    node = patch.apply(node);
    undistilled = follow(undistilled, &IndexName::Undistilled, &node);
    pushed = follow(pushed, &IndexName::PushedUndistilled, &node);
    assert_eq!(oldest_entries(undistilled.clone(), 10).len(), 1);
    assert_eq!(oldest_entries(pushed.clone(), 10).len(), 1);

    let patch = RawLifecyclePatch {
        distillation_state: Some(DistillationState::Distilled),
        overflow: Some(OverflowPolicy {
            was_pushed_out_of_session: false,
            relax_retrieval_until: None,
        }),
    };
    node = patch.apply(node);
    undistilled = follow(undistilled, &IndexName::Undistilled, &node);
    pushed = follow(pushed, &IndexName::PushedUndistilled, &node);
    assert_eq!(oldest_entries(undistilled, 10).len(), 0);
    assert_eq!(oldest_entries(pushed, 10).len(), 0);
}

#[test]
fn the_timeline_is_written_last() {
    let session = SessionId::new();
    let in_loop = LoopId::new();
    let node = note(Some(session), Some(in_loop), DAY);
    assert_eq!(
        index_writes(&node),
        vec![
            IndexWrite::Upsert(IndexName::Session(session)),
            IndexWrite::Upsert(IndexName::Loop(in_loop)),
            IndexWrite::Upsert(IndexName::Undistilled),
            IndexWrite::Remove(IndexName::PushedUndistilled),
            IndexWrite::Upsert(IndexName::Timeline("19700102".to_string())),
        ]
    );
    let mut loose = note(None, None, 0);
    loose.distillation_state = DistillationState::Distilled;
    loose.overflow.was_pushed_out_of_session = true;
    assert_eq!(
        index_writes(&loose),
        vec![
            IndexWrite::Remove(IndexName::Undistilled),
            IndexWrite::Remove(IndexName::PushedUndistilled),
            IndexWrite::Upsert(IndexName::Timeline("19700101".to_string())),
        ]
    );
}

#[test]
fn days_have_indexes_of_their_own() {
    let old = note(None, None, 0);
    let today = [note(None, None, 2 * DAY), note(None, None, 2 * DAY + 1)];
    let old_shard = IndexName::Timeline(timeline_bucket(&old.timestamp));
    let new_shard = IndexName::Timeline(timeline_bucket(&today[0].timestamp));
    let before = follow(Vec::new(), &old_shard, &old);
    let mut after = before.clone();
    let mut shard = Vec::new();
    for node in &today {
        after = follow(after, &old_shard, node);
        shard = follow(shard, &new_shard, node);
    }
    assert_eq!(after, before);
    assert_eq!(shard.len(), 2);

    let mut recent = TimelineMerge::new(None, None, 2);
    assert!(recent.add_shard(&shard));
    assert!(recent.finish().iter().all(|found| found.id != old.id));

    let mut all = TimelineMerge::new(None, None, 16);
    assert!(!all.add_shard(&shard));
    assert!(!all.add_shard(&after));
    let merged = all.finish();
    assert_eq!(merged.len(), 3);
    for window in merged.windows(2) {
        assert!(!window[0].timestamp.is_before(&window[1].timestamp));
    }
}

#[test]
fn entries_are_replaced_and_sorted() {
    let a = note(None, None, 10);
    let b = note(None, None, 5);
    let mut entries = upsert_raw_index_entry(&[], entry(&a));
    entries = upsert_raw_index_entry(&entries, entry(&b));
    assert_eq!(entries, vec![entry(&b), entry(&a)]);
    let mut moved = a.clone();
    moved.timestamp = at(1);
    entries = upsert_raw_index_entry(&entries, entry(&moved));
    assert_eq!(entries, vec![entry(&moved), entry(&b)]);
    assert_eq!(remove_raw_index_entry(&entries, b.id), vec![entry(&moved)]);
    assert_eq!(remove_raw_index_entry(&entries, RawNodeId::new()), entries);

    let tied = note(None, None, 10);
    let (low, high) = if a.id.to_string() < tied.id.to_string() {
        (&a, &tied)
    } else {
        (&tied, &a)
    };
    assert_eq!(
        sort_raw_index_entries(vec![entry(high), entry(low)]),
        vec![entry(low), entry(high)]
    );
}

#[test]
fn rebuilding_lists_every_node() {
    let session = SessionId::new();
    let in_loop = LoopId::new();
    let older = note(Some(session), Some(in_loop), 10);
    let newer = note(Some(session), Some(in_loop), 70).with_operation_key("op");
    let indexes = rebuild_raw_indexes(vec![newer.clone(), older.clone()]);
    let listed = indexes.sessions.get(&session).unwrap();
    assert_eq!(*listed, vec![entry(&older), entry(&newer)]);
    assert_eq!(*indexes.loops.get(&in_loop).unwrap(), vec![entry(&older), entry(&newer)]);
    assert_eq!(
        *indexes.timeline.get(&"19700101".to_string()).unwrap(),
        vec![entry(&older), entry(&newer)]
    );
    assert_eq!(session_timeline(listed, None, None, 1), vec![entry(&newer)]);
    assert_eq!(indexes.undistilled.len(), 2);
    assert!(indexes.pushed_undistilled.is_empty());
    assert_eq!(*indexes.operations.get(&"op".to_string()).unwrap(), newer.id);
    assert!(indexes.sessions.get(&SessionId::new()).is_none());
}

#[test]
fn rebuilding_repeats_the_writes_of_the_nodes() {
    let session = SessionId::new();
    let mut nodes = Vec::new();
    for secs in [50, 20, DAY + 3, 20, 7] {
        let mut node = note(Some(session), None, secs);
        node.overflow.was_pushed_out_of_session = secs == 20;
        nodes.push(node);
    }
    let indexes = rebuild_raw_indexes(nodes.clone());
    let followed = |name: IndexName| {
        let mut entries = Vec::new();
        for node in &nodes {
            entries = follow(entries, &name, node);
        }
        entries
    };
    assert_eq!(*indexes.sessions.get(&session).unwrap(), followed(IndexName::Session(session)));
    assert_eq!(indexes.undistilled, followed(IndexName::Undistilled));
    assert_eq!(indexes.pushed_undistilled, followed(IndexName::PushedUndistilled));
    for day in ["19700101", "19700102"] {
        assert_eq!(
            *indexes.timeline.get(&day.to_string()).unwrap(),
            followed(IndexName::Timeline(day.to_string()))
        );
    }
    assert_eq!(indexes.timeline.len(), 2);
}

#[test]
fn the_newest_node_of_an_operation_is_noted() {
    let old = note(None, None, 1).with_operation_key("op");
    let new = note(None, None, 2).with_operation_key("op");
    let indexes = rebuild_raw_indexes(vec![new.clone(), old]);
    assert_eq!(*indexes.operations.get(&"op".to_string()).unwrap(), new.id);

    let nodes: Vec<AbstractNode> =
        [9, 3].map(|secs| summary(secs).with_operation_key("abs")).to_vec();
    let newest = nodes[0].id;
    let operations = rebuild_abstract_operations(nodes);
    assert_eq!(*operations.get(&"abs".to_string()).unwrap(), newest);
    assert_eq!(operations.len(), 1);
}

#[test]
fn nodes_left_out_are_noticed() {
    let kept = note(None, None, 1);
    let orphan = note(None, None, 2);
    let names = vec![kept.id.to_string(), orphan.id.to_string()];
    assert!(!bodies_are_covered(&names, &[kept.id]));
    assert!(!trusts_indexes(Some(INDEX_VERSION), true, false, true));

    let indexes = rebuild_raw_indexes(vec![kept.clone(), orphan.clone()]);
    let shard = indexes.timeline.get(&"19700101".to_string()).unwrap();
    let listed: Vec<RawNodeId> = shard.iter().map(|found| found.id).collect();
    assert!(bodies_are_covered(&names, &listed));
    assert!(listed.contains(&kept.id));
    assert!(listed.contains(&orphan.id));
    assert!(bodies_are_covered::<RawNodeId>(&[], &[]));
    assert!(!bodies_are_covered(&["notes".to_string()], &[kept.id]));
}

#[test]
fn embeddings_left_out_are_noticed() {
    let kept = RawNodeId::new();
    let orphan = RawNodeId::new();
    let lost = AbstractNodeId::new();
    assert!(!bodies_are_covered(&[orphan.to_string()], &[kept]));
    assert!(!trusts_indexes(Some(INDEX_VERSION), true, true, false));
    let raw = rebuild_manifests(
        &[
            EmbeddingOwner { id: kept, session_id: None },
            EmbeddingOwner { id: orphan, session_id: None },
        ],
        &RawNodeIdOrder,
    );
    let ids = &raw.get(&Shard(None)).unwrap().ids;
    assert!(ids.contains(&kept));
    assert!(ids.contains(&orphan));
    let nodes = rebuild_manifests(
        &[EmbeddingOwner { id: lost, session_id: None }],
        &AbstractNodeIdOrder,
    );
    assert_eq!(nodes.get(&Shard(None)).unwrap().ids, vec![lost]);
}

#[test]
fn sessions_have_lists_of_their_own() {
    let session_a = SessionId::new();
    let session_b = SessionId::new();
    let a1 = RawNodeId::new();
    let a2 = RawNodeId::new();
    let b1 = RawNodeId::new();
    let owners = [
        EmbeddingOwner { id: a1, session_id: Some(session_a) },
        EmbeddingOwner { id: a2, session_id: Some(session_a) },
        EmbeddingOwner { id: b1, session_id: Some(session_b) },
        EmbeddingOwner { id: a1, session_id: Some(session_a) },
    ];
    let shards = rebuild_manifests(&owners, &RawNodeIdOrder);
    assert_eq!(shards.len(), 2);
    let ids = &shards.get(&Shard(Some(session_a))).unwrap().ids;
    assert_eq!(ids.len(), 2);
    assert!(!ids.contains(&b1));
    assert!(shards.get(&Shard(None)).is_none());
    assert_ne!(
        raw_embedding_shard_path(Some(session_a)),
        raw_embedding_shard_path(Some(session_b))
    );
}

#[test]
fn manifests_hold_each_identifier_once_in_order() {
    let mut ids: Vec<RawNodeId> = (0..4).map(|_| RawNodeId::new()).collect();
    let extra = RawNodeId::new();
    let mut expected = ids.clone();
    expected.sort();
    ids.push(ids[0]);
    let held = manifest_ids(ids, &RawNodeIdOrder);
    assert_eq!(held, expected);
    assert_eq!(upsert_manifest_id(held.clone(), expected[2], &RawNodeIdOrder), expected);
    expected.push(extra);
    expected.sort();
    assert_eq!(upsert_manifest_id(held, extra, &RawNodeIdOrder), expected);
}

#[test]
fn timelines_read_newest_first_within_a_window() {
    let nodes = [note(None, None, 1), note(None, None, 3), note(None, None, 2), note(None, None, 4)];
    let entries: Vec<_> = nodes.iter().map(entry).collect();
    assert_eq!(
        session_timeline(&entries, Some(at(2)), Some(at(3)), 5),
        vec![entries[1], entries[2]]
    );
    assert_eq!(session_timeline(&entries, None, None, 2), vec![entries[3], entries[1]]);
    let sorted = sort_raw_index_entries(entries.clone());
    assert_eq!(recent_entries(sorted.clone(), 2), vec![entries[1], entries[3]]);
    assert_eq!(oldest_entries(sorted.clone(), 1), vec![entries[0]]);
    assert_eq!(recent_entries(sorted.clone(), 9), sorted);
}

#[test]
fn stopping_early_changes_nothing() {
    let days: Vec<Vec<RawIndexEntry>> = (0..4)
        .rev()
        .map(|day| (0..3).map(|hour| entry(&note(None, None, day * DAY + hour))).collect())
        .collect();
    for limit in 0..14 {
        let mut early = TimelineMerge::new(None, Some(at(3 * DAY)), limit);
        let mut whole = TimelineMerge::new(None, Some(at(3 * DAY)), limit);
        let mut done = false;
        for shard in &days {
            if !done {
                done = early.add_shard(shard);
            }
            whole.add_shard(shard);
        }
        assert_eq!(early.finish(), whole.finish());
    }
}

#[test]
fn indexes_are_trusted_only_when_whole() {
    assert!(trusts_indexes(Some(INDEX_VERSION), true, true, true));
    assert!(!trusts_indexes(None, true, true, true));
    assert!(!trusts_indexes(Some(INDEX_VERSION - 1), true, true, true));
    assert!(!trusts_indexes(Some(INDEX_VERSION), false, true, true));
}

#[test]
fn stores_of_another_layout_are_refused() {
    let fresh = StoreMetadata::new(at(5));
    assert_eq!(fresh.format_version, 1);
    assert_eq!(fresh.created_at, at(5));
    assert_eq!(fresh.last_index_rebuild_at, None);
    assert_eq!(fresh.accepted("store.json").unwrap(), fresh);
    let rebuilt = fresh.rebuilt(at(8)).touched(at(9));
    assert_eq!(rebuilt.last_index_rebuild_at, Some(at(8)));
    assert_eq!(rebuilt.updated_at, at(9));
    assert_eq!(rebuilt.created_at, at(5));
    let foreign = StoreMetadata { format_version: 12, ..fresh };
    match foreign.accepted("/data/store.json") {
        Err(EngineError::Storage(message)) => assert_eq!(
            message,
            "unsupported object store format version 12 in /data/store.json"
        ),
        other => panic!("unexpected {other:?}"),
    }
}

#[test]
fn indexes_are_readable_where_they_are_missing_or_json() {
    let read = |payload: &[u8]| IndexFile::Read(payload.to_vec());
    assert!(indexes_are_readable(&[]));
    assert!(indexes_are_readable(&[IndexFile::Missing]));
    assert!(indexes_are_readable(&[read(b"[]"), IndexFile::Missing, read(b" {\"ids\": []}\n")]));
    assert!(indexes_are_readable(&[read(b"[1,2,3]")]));
    assert!(!indexes_are_readable(&[IndexFile::Failed]));
    assert!(!indexes_are_readable(&[read(b"")]));
    assert!(!indexes_are_readable(&[read(b"[] []")]));
    assert!(!indexes_are_readable(&[read(b"\"\xff\"")]));
    assert!(!indexes_are_readable(&[read(b"[]"), read(b"{ broken json")]));
}

#[test]
fn a_list_of_another_shape_lists_no_embedding() {
    let (first, second) = (RawNodeId::new(), RawNodeId::new());
    let names = vec![first.to_string(), second.to_string()];
    let list = |ids: &[RawNodeId]| Manifest { ids: ids.to_vec() };
    assert!(embeddings_are_listed::<RawNodeId>(&[], &[]));
    assert!(embeddings_are_listed::<RawNodeId>(&[], &[None]));
    assert!(!embeddings_are_listed::<RawNodeId>(&names, &[]));
    assert!(embeddings_are_listed(&names, &[Some(list(&[first])), Some(list(&[second]))]));
    assert!(!embeddings_are_listed(&names, &[Some(list(&[first]))]));
    assert!(!embeddings_are_listed(&names, &[Some(list(&[first, second])), None]));
    assert!(!embeddings_are_listed(
        &["no identifier".to_string()],
        &[Some(list(&[first, second]))]
    ));
    assert!(embedding_indexes_are_complete(&names, &[list(&[second]), list(&[first])]));
    assert!(!embedding_indexes_are_complete(&names, &[list(&[second])]));
}

#[test]
fn a_repeated_operation_gives_the_node_of_the_first() {
    let (first, second) = (note(None, None, 1), note(None, None, 2));
    let commit = commit_once(Some(first.clone()), second.clone());
    assert_eq!(commit.node, first);
    assert!(!commit.inserted);
    assert!(!commit.projections_committed);
    let commit = commit_once(None, second.clone());
    assert_eq!(commit.node, second);
    assert!(commit.inserted);
    assert!(!commit.projections_committed);

    let (first, second) = (summary(1), summary(2));
    let commit = commit_abstract_once(Some(first.clone()), second.clone());
    assert_eq!(commit.node, first);
    assert!(!commit.inserted);
    assert!(!commit.projections_committed);
    let commit = commit_abstract_once(None, second.clone());
    assert_eq!(commit.node, second);
    assert!(commit.inserted);
    assert!(!commit.projections_committed);
}

#[test]
fn instants_are_written_as_rfc_3339() {
    let written = |secs: i64, nanos: u32| Timestamp { secs, nanos }.to_rfc3339();
    assert_eq!(written(0, 0).as_deref(), Some("1970-01-01T00:00:00+00:00"));
    assert_eq!(
        written(1_700_000_000, 5_000_000).as_deref(),
        Some("2023-11-14T22:13:20.005+00:00")
    );
    assert!(written(MAX_SECONDS, 999_999_999).is_some());
    assert!(written(MIN_SECONDS, 0).is_some());
    assert_eq!(written(MAX_SECONDS + 1, 0), None);
    assert_eq!(written(MIN_SECONDS - 1, 0), None);
    assert_eq!(written(0, 2_000_000_000), None);
}
