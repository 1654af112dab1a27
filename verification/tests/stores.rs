//! An object store whose objects are kept in memory, under the paths that they
//! have on disk.
use std::collections::BTreeMap;

use takos_agent_engine::domain::raw_node::{DistillationState, OverflowPolicy, RawNode, RawNodeKind};
use takos_agent_engine::float32::Float32;
use takos_agent_engine::ids::{
    AbstractNodeId, AbstractNodeIdOrder, LoopId, RawNodeId, RawNodeIdOrder, SessionId,
};
use takos_agent_engine::storage::layout::{
    abstract_embedding_shard_path, loop_index_path, raw_embedding_shard_path,
    raw_timeline_shard_path, session_index_path, INDEX_VERSION, PUSHED_UNDISTILLED_INDEX_PATH,
    TIMELINE_SHARD_DIR, UNDISTILLED_INDEX_PATH,
};
use takos_agent_engine::storage::object_complete::{
    embeddings_are_listed, indexes_are_complete, indexes_are_readable, IndexFile,
};
use takos_agent_engine::storage::object_index::{
    index_writes, remove_raw_index_entry, upsert_raw_index_entry, IndexName, IndexWrite,
};
use takos_agent_engine::storage::object_rebuild::rebuild_raw_indexes;
use takos_agent_engine::storage::object_search::{
    search_listed_abstracts, search_listed_raws, ListedEmbedding,
};
use takos_agent_engine::storage::object_store::{
    oldest_entries, rebuild_manifests, session_timeline, trusts_indexes, upsert_manifest_id,
    EmbeddingOwner, Manifest, TimelineMerge,
};
use takos_agent_engine::storage::records::{RawLifecyclePatch, ScoredAbstractRef, ScoredRawRef};
use takos_agent_engine::storage::timeline::RawIndexEntry;
use takos_agent_engine::time::{Duration, Timestamp};

const DAY: i64 = 86_400;
const NOW: Timestamp = Timestamp { secs: 1_700_000_000, nanos: 0 };

/// An embedding with what it belongs to.
#[derive(Debug, Clone)]
struct Stored<I> {
    id: I,
    session_id: Option<SessionId>,
    components: Vec<f32>,
}

#[derive(Debug, Clone, Default)]
struct Store {
    raws: Vec<RawNode>,
    raw_embeddings: Vec<Stored<RawNodeId>>,
    abstract_embeddings: Vec<Stored<AbstractNodeId>>,
    /// The version of the indexes, once they were built.
    version: Option<u32>,
    /// Files of indexes that were replaced behind the store's back.
    overwritten: BTreeMap<String, Vec<u8>>,
    indexes: BTreeMap<String, Vec<RawIndexEntry>>,
    raw_manifests: BTreeMap<String, Vec<RawNodeId>>,
    abstract_manifests: BTreeMap<String, Vec<AbstractNodeId>>,
}

fn path(name: IndexName) -> String {
    match name {
        IndexName::Session(id) => session_index_path(&id),
        IndexName::Loop(id) => loop_index_path(&id),
        IndexName::Undistilled => UNDISTILLED_INDEX_PATH.to_string(),
        IndexName::PushedUndistilled => PUSHED_UNDISTILLED_INDEX_PATH.to_string(),
        IndexName::Timeline(day) => raw_timeline_shard_path(&day),
    }
}

fn similarity(a: &[f32], b: &[f32]) -> Float32 {
    let dot: f32 = a.iter().zip(b).map(|(x, y)| x * y).sum();
    let norm = |v: &[f32]| v.iter().map(|x| x * x).sum::<f32>().sqrt();
    Float32::from_bits((dot / (norm(a) * norm(b))).to_bits())
}

impl Store {
    fn open() -> Self {
        Store::default().reopened()
    }

    fn shards(&self) -> Vec<Vec<RawIndexEntry>> {
        let of_timeline = |item: &(&String, &Vec<RawIndexEntry>)| {
            item.0.starts_with(TIMELINE_SHARD_DIR)
        };
        self.indexes.iter().filter(of_timeline).map(|item| item.1.clone()).collect()
    }

    fn nodes_are_listed(&self) -> bool {
        let names: Vec<String> = self.raws.iter().map(|node| node.id.to_string()).collect();
        indexes_are_complete(&names, &self.shards())
    }

    fn embeddings_are_listed(&self) -> bool {
        let raws: Vec<String> =
            self.raw_embeddings.iter().map(|stored| stored.id.to_string()).collect();
        let raw_lists: Vec<Option<Manifest<RawNodeId>>> =
            self.raw_manifests.iter().map(|(path, ids)| self.manifest(path, ids)).collect();
        let abstracts: Vec<String> =
            self.abstract_embeddings.iter().map(|stored| stored.id.to_string()).collect();
        let abstract_lists: Vec<Option<Manifest<AbstractNodeId>>> =
            self.abstract_manifests.iter().map(|(path, ids)| self.manifest(path, ids)).collect();
        embeddings_are_listed(&raws, &raw_lists)
            && embeddings_are_listed(&abstracts, &abstract_lists)
    }

    /// A list of embeddings as it is read back; nothing when its file has
    /// another shape.
    fn manifest<I: Copy>(&self, path: &str, ids: &[I]) -> Option<Manifest<I>> {
        match self.overwritten.get(path) {
            Some(payload) => {
                let value: serde_json::Value = serde_json::from_slice(payload).ok()?;
                value.get("ids")?;
                Some(Manifest { ids: ids.to_vec() })
            }
            None => Some(Manifest { ids: ids.to_vec() }),
        }
    }

    fn index_files(&self) -> Vec<IndexFile> {
        let needed = |path: &&String| {
            path.starts_with(TIMELINE_SHARD_DIR)
                || *path == UNDISTILLED_INDEX_PATH
                || *path == PUSHED_UNDISTILLED_INDEX_PATH
        };
        self.indexes
            .keys()
            .filter(needed)
            .chain(self.raw_manifests.keys())
            .chain(self.abstract_manifests.keys())
            .map(|path| match self.overwritten.get(path) {
                Some(payload) => IndexFile::Read(payload.clone()),
                None => IndexFile::Read(b"{}".to_vec()),
            })
            .collect()
    }

    /// The store as it is opened again.
    fn reopened(self) -> Self {
        let trusted = trusts_indexes(
            self.version,
            indexes_are_readable(&self.index_files()),
            self.nodes_are_listed(),
            self.embeddings_are_listed(),
        );
        if trusted {
            return self;
        }
        self.rebuilt()
    }

    fn rebuilt(self) -> Self {
        let mut store = Store {
            version: Some(INDEX_VERSION),
            overwritten: BTreeMap::new(),
            indexes: BTreeMap::new(),
            raw_manifests: BTreeMap::new(),
            abstract_manifests: BTreeMap::new(),
            ..self
        };
        let built = rebuild_raw_indexes(store.raws.clone());
        for item in built.timeline.entries {
            store.indexes.insert(raw_timeline_shard_path(&item.key), item.value);
        }
        for item in built.sessions.entries {
            store.indexes.insert(session_index_path(&item.key), item.value);
        }
        for item in built.loops.entries {
            store.indexes.insert(loop_index_path(&item.key), item.value);
        }
        store.indexes.insert(UNDISTILLED_INDEX_PATH.to_string(), built.undistilled);
        store.indexes.insert(PUSHED_UNDISTILLED_INDEX_PATH.to_string(), built.pushed_undistilled);
        let owners: Vec<EmbeddingOwner<RawNodeId>> = store
            .raw_embeddings
            .iter()
            .map(|stored| EmbeddingOwner { id: stored.id, session_id: stored.session_id })
            .collect();
        for item in rebuild_manifests(&owners, &RawNodeIdOrder).entries {
            store.raw_manifests.insert(raw_embedding_shard_path(item.key.0), item.value.ids);
        }
        let owners: Vec<EmbeddingOwner<AbstractNodeId>> = store
            .abstract_embeddings
            .iter()
            .map(|stored| EmbeddingOwner { id: stored.id, session_id: stored.session_id })
            .collect();
        for item in rebuild_manifests(&owners, &AbstractNodeIdOrder).entries {
            let list = abstract_embedding_shard_path(item.key.0);
            store.abstract_manifests.insert(list, item.value.ids);
        }
        store
    }

    fn insert_raw(&mut self, node: &RawNode) {
        self.raws.retain(|other| other.id != node.id);
        self.raws.push(node.clone());
        for write in index_writes(node) {
            match write {
                IndexWrite::Upsert(name) => {
                    let entries = self.indexes.entry(path(name)).or_default();
                    *entries = upsert_raw_index_entry(entries, RawIndexEntry::of(node));
                }
                IndexWrite::Remove(name) => {
                    let entries = self.indexes.entry(path(name)).or_default();
                    *entries = remove_raw_index_entry(entries, node.id);
                }
            }
        }
    }

    fn update_raw_lifecycle(&mut self, id: RawNodeId, patch: &RawLifecyclePatch) {
        let node = self.raws.iter().find(|node| node.id == id).cloned().unwrap();
        self.insert_raw(&patch.apply(node));
    }

    fn read(&self, entries: Vec<RawIndexEntry>) -> Vec<RawNode> {
        let body = |entry: &RawIndexEntry| self.raws.iter().find(|node| node.id == entry.id);
        entries.iter().filter_map(body).cloned().collect()
    }

    fn index(&self, path: &str) -> Vec<RawIndexEntry> {
        self.indexes.get(path).cloned().unwrap_or_default()
    }

    fn session_raw(&self, session_id: &SessionId) -> Vec<RawNode> {
        self.read(self.index(&session_index_path(session_id)))
    }

    fn undistilled_raw(&self, limit: usize, only_pushed_out: bool) -> Vec<RawNode> {
        let path =
            if only_pushed_out { PUSHED_UNDISTILLED_INDEX_PATH } else { UNDISTILLED_INDEX_PATH };
        self.read(oldest_entries(self.index(path), limit))
    }

    fn timeline_raw(&self, limit: usize) -> Vec<RawNode> {
        let mut merge = TimelineMerge::new(None, None, limit);
        for shard in self.shards().iter().rev() {
            if merge.add_shard(shard) {
                break;
            }
        }
        self.read(merge.finish())
    }

    /// Replaces the file of an index, whose entries are then lost.
    fn overwrite(&mut self, path: &str, payload: &[u8]) {
        if let Some(entries) = self.indexes.get_mut(path) {
            entries.clear();
        }
        if let Some(list) = self.raw_manifests.get_mut(path) {
            list.clear();
        }
        self.overwritten.insert(path.to_string(), payload.to_vec());
    }

    fn timeline_path(&self) -> String {
        let of_timeline = |path: &&String| path.starts_with(TIMELINE_SHARD_DIR);
        self.indexes.keys().find(of_timeline).cloned().unwrap()
    }

    fn index_raw(&mut self, id: RawNodeId, components: [f32; 2], session_id: Option<SessionId>) {
        self.raw_embeddings.retain(|stored| stored.id != id);
        self.raw_embeddings.push(Stored { id, session_id, components: components.to_vec() });
        let list = self.raw_manifests.entry(raw_embedding_shard_path(session_id)).or_default();
        *list = upsert_manifest_id(list.clone(), id, &RawNodeIdOrder);
    }

    fn index_abstract(&mut self, id: AbstractNodeId, components: [f32; 2]) {
        self.abstract_embeddings.push(Stored { id, session_id: None, components: components.to_vec() });
        let list = self.abstract_manifests.entry(abstract_embedding_shard_path(None)).or_default();
        *list = upsert_manifest_id(list.clone(), id, &AbstractNodeIdOrder);
    }

    fn search_raw(
        &self,
        query: [f32; 2],
        top_k: usize,
        session_id: Option<SessionId>,
    ) -> Vec<ScoredRawRef> {
        let listed = self.raw_manifests.get(&raw_embedding_shard_path(session_id));
        let found: Vec<ListedEmbedding<RawNodeId>> = listed
            .into_iter()
            .flatten()
            .map(|id| {
                let stored = self.raw_embeddings.iter().find(|stored| stored.id == *id).unwrap();
                ListedEmbedding {
                    id: *id,
                    session_id: stored.session_id,
                    score: similarity(&query, &stored.components),
                }
            })
            .collect();
        search_listed_raws(&found, session_id, top_k)
    }

    fn search_abstract(&self, query: [f32; 2], top_k: usize) -> Vec<ScoredAbstractRef> {
        let listed = self.abstract_manifests.get(&abstract_embedding_shard_path(None));
        let found: Vec<ListedEmbedding<AbstractNodeId>> = listed
            .into_iter()
            .flatten()
            .map(|id| {
                let stored =
                    self.abstract_embeddings.iter().find(|stored| stored.id == *id).unwrap();
                ListedEmbedding {
                    id: *id,
                    session_id: stored.session_id,
                    score: similarity(&query, &stored.components),
                }
            })
            .collect();
        search_listed_abstracts(&found, None, top_k)
    }
}

fn node(
    kind: RawNodeKind,
    session_id: SessionId,
    loop_id: LoopId,
    source: &str,
    text: &str,
    importance: f32,
    timestamp: Timestamp,
) -> RawNode {
    let mut node = RawNode::text(
        kind,
        Some(session_id),
        Some(loop_id),
        source,
        text,
        Float32::from_bits(importance.to_bits()),
        Vec::new(),
    );
    node.timestamp = timestamp;
    node
}

fn ids(nodes: &[RawNode]) -> Vec<RawNodeId> {
    nodes.iter().map(|node| node.id).collect()
}

#[test]
fn node_object_store_rebuilds_materialized_indexes_on_open() {
    let (session_id, loop_id) = (SessionId::new(), LoopId::new());
    let mut store = Store::open();
    let minute_ago = Timestamp { secs: NOW.secs - 60, nanos: 0 };
    let kind = RawNodeKind::UserUtterance;
    let older = node(kind, session_id, loop_id, "user", "older", 0.5, minute_ago);
    store.insert_raw(&older);
    store.index_raw(older.id, [1.0, 0.0], None);
    let kind = RawNodeKind::AssistantUtterance;
    let newer = node(kind, session_id, loop_id, "assistant", "newer", 0.6, NOW);
    store.insert_raw(&newer);
    store.index_raw(newer.id, [0.9, 0.1], None);

    store.version = None;
    store.indexes.clear();
    store.raw_manifests.clear();
    let store = store.reopened();

    let session_nodes = store.session_raw(&session_id);
    assert_eq!(session_nodes.len(), 2);
    assert_eq!(session_nodes[0].id, older.id);
    assert_eq!(session_nodes[1].id, newer.id);
    let recent = store.timeline_raw(1);
    assert_eq!(recent.len(), 1);
    assert_eq!(recent[0].id, newer.id);
    let scored = store.search_raw([1.0, 0.0], 2, None);
    assert_eq!(scored.len(), 2);
    assert_eq!(scored[0].id, older.id);
}

#[test]
fn node_object_store_recovers_from_corrupted_index_payloads_on_open() {
    let (session_id, loop_id) = (SessionId::new(), LoopId::new());
    let mut store = Store::open();
    let kind = RawNodeKind::UserUtterance;
    let kept = node(kind, session_id, loop_id, "user", "recover me", 0.5, NOW);
    store.insert_raw(&kept);
    store.index_raw(kept.id, [1.0, 0.0], None);

    let shard = store.timeline_path();
    store.overwrite(&shard, b"{ broken json");
    assert!(!indexes_are_readable(&store.index_files()));
    let store = store.reopened();

    assert!(indexes_are_readable(&store.index_files()));
    let recovered = store.timeline_raw(8);
    assert_eq!(recovered.len(), 1);
    assert_eq!(recovered[0].id, kept.id);
    let scored = store.search_raw([1.0, 0.0], 1, None);
    assert_eq!(scored.len(), 1);
    assert_eq!(scored[0].id, kept.id);
}

#[test]
fn object_store_rebuilds_from_wrong_shape_embedding_manifest_on_open() {
    let raw = RawNodeId::new();
    let mut store = Store::open();
    store.index_raw(raw, [1.0, 0.0], None);

    store.overwrite("indexes/vector/raw/none.json", b"[1,2,3]");
    assert!(indexes_are_readable(&store.index_files()));
    assert!(!store.embeddings_are_listed());
    let store = store.reopened();

    let hits = store.search_raw([1.0, 0.0], 1, None);
    assert_eq!(hits.len(), 1);
    assert_eq!(hits[0].id, raw);
}

#[test]
fn node_object_store_backlog_indexes_follow_lifecycle_updates() {
    let mut store = Store::open();
    let (session_id, loop_id) = (SessionId::new(), LoopId::new());
    let kind = RawNodeKind::Note;
    let waiting = node(kind, session_id, loop_id, "system", "backlog candidate", 0.5, NOW);
    store.insert_raw(&waiting);
    assert_eq!(store.undistilled_raw(10, false).len(), 1);
    assert_eq!(store.undistilled_raw(10, true).len(), 0);

    let overflow = |was_pushed_out_of_session: bool| {
        Some(OverflowPolicy { was_pushed_out_of_session, relax_retrieval_until: None })
    };
    store.update_raw_lifecycle(
        waiting.id,
        &RawLifecyclePatch { distillation_state: None, overflow: overflow(true) },
    );
    assert_eq!(store.undistilled_raw(10, false).len(), 1);
    assert_eq!(store.undistilled_raw(10, true).len(), 1);

    store.update_raw_lifecycle(
        waiting.id,
        &RawLifecyclePatch {
            distillation_state: Some(DistillationState::Distilled),
            overflow: overflow(false),
        },
    );
    assert_eq!(store.undistilled_raw(10, false).len(), 0);
    assert_eq!(store.undistilled_raw(10, true).len(), 0);
}

#[test]
fn node_object_store_reindexes_node_missing_from_timeline_on_open() {
    let (session_id, loop_id) = (SessionId::new(), LoopId::new());
    let mut store = Store::open();
    let kind = RawNodeKind::UserUtterance;
    let kept = node(kind, session_id, loop_id, "user", "kept node", 0.5, NOW);
    let kind = RawNodeKind::AssistantUtterance;
    let orphan = node(kind, session_id, loop_id, "assistant", "orphaned node", 0.6, NOW);
    store.insert_raw(&kept);
    store.insert_raw(&orphan);
    assert_eq!(store.shards().len(), 1);

    for (path, entries) in &mut store.indexes {
        if path.starts_with(TIMELINE_SHARD_DIR) {
            entries.retain(|entry| entry.id != orphan.id);
        }
    }
    assert_eq!(
        store.timeline_raw(16).len(),
        1,
        "before reconciliation the orphaned node must be invisible in the trimmed timeline"
    );
    assert!(!store.nodes_are_listed());

    let store = store.reopened();
    assert_eq!(
        store.session_raw(&session_id).len(),
        2,
        "reopen must reindex the orphaned node from its surviving body"
    );
    let found = ids(&store.timeline_raw(16));
    assert!(found.contains(&kept.id));
    assert!(found.contains(&orphan.id));
}

#[test]
fn timeline_insert_touches_only_its_day_shard() {
    let (session_id, loop_id) = (SessionId::new(), LoopId::new());
    let mut store = Store::open();
    let kind = RawNodeKind::UserUtterance;
    let two_days_ago = Timestamp { secs: NOW.secs - 2 * DAY, nanos: 0 };
    let old = node(kind, session_id, loop_id, "user", "old day", 0.5, two_days_ago);
    store.insert_raw(&old);
    assert_eq!(store.shards().len(), 1, "one day inserted -> one shard");
    let old_shard = store.shards()[0].clone();

    for label in ["today a", "today b"] {
        let kind = RawNodeKind::AssistantUtterance;
        store.insert_raw(&node(kind, session_id, loop_id, "assistant", label, 0.6, NOW));
    }
    assert_eq!(
        store.shards()[0], old_shard,
        "inserting into another day must not rewrite an existing day's shard"
    );
    assert_eq!(store.shards().len(), 2, "second day -> a second shard");

    let recent = store.timeline_raw(2);
    assert_eq!(recent.len(), 2);
    assert!(
        recent.iter().all(|node| node.id != old.id),
        "the two newest entries are from today, not the old day"
    );
    let all = store.timeline_raw(16);
    assert_eq!(all.len(), 3);
    for window in all.windows(2) {
        assert!(!window[0].timestamp.is_before(&window[1].timestamp));
    }
}

#[test]
fn vector_object_store_vector_index_filters_by_session_id() {
    let (session_a, session_b) = (SessionId::new(), SessionId::new());
    let mut store = Store::open();
    let (raw_a, raw_b, raw_legacy) = (RawNodeId::new(), RawNodeId::new(), RawNodeId::new());
    store.index_raw(raw_a, [1.0, 0.0], Some(session_a));
    store.index_raw(raw_b, [1.0, 0.0], Some(session_b));
    store.index_raw(raw_legacy, [1.0, 0.0], None);
    let scoped_a = store.search_raw([1.0, 0.0], 8, Some(session_a));
    assert_eq!(scoped_a.len(), 1);
    assert_eq!(scoped_a[0].id, raw_a);
    let legacy_only = store.search_raw([1.0, 0.0], 8, None);
    assert_eq!(legacy_only.len(), 1);
    assert_eq!(legacy_only[0].id, raw_legacy);
}

#[test]
fn vector_search_uses_per_session_shards() {
    let (session_a, session_b) = (SessionId::new(), SessionId::new());
    let mut store = Store::open();
    let (a1, a2, b1) = (RawNodeId::new(), RawNodeId::new(), RawNodeId::new());
    for (id, session) in [(a1, session_a), (a2, session_a), (b1, session_b)] {
        store.index_raw(id, [1.0, 0.0], Some(session));
    }
    let shard_a = format!("indexes/vector/raw/{}.json", session_a.to_string());
    let shard_b = format!("indexes/vector/raw/{}.json", session_b.to_string());
    assert!(store.raw_manifests.contains_key(&shard_a), "session A must have its own shard file");
    assert!(store.raw_manifests.contains_key(&shard_b), "session B must have its own shard file");
    let listed = &store.raw_manifests[&shard_a];
    assert_eq!(listed.len(), 2, "session-A shard holds only session-A entries");
    assert!(!listed.contains(&b1), "no cross-session bleed");
    assert_eq!(store.search_raw([1.0, 0.0], 8, Some(session_a)).len(), 2);
}

#[test]
fn vector_object_store_vector_index_backfills_legacy_payloads_without_session_field() {
    let mut store = Store::open();
    let raw_legacy = RawNodeId::new();
    let components = vec![1.0, 0.0];
    store.raw_embeddings.push(Stored { id: raw_legacy, session_id: None, components });
    let store = store.reopened();
    assert_eq!(store.raw_manifests["indexes/vector/raw/none.json"], vec![raw_legacy]);
    assert!(
        store.search_raw([1.0, 0.0], 4, Some(SessionId::new())).is_empty(),
        "legacy entry must not surface for a session-scoped search"
    );
    let legacy = store.search_raw([1.0, 0.0], 4, None);
    assert_eq!(legacy.len(), 1);
    assert_eq!(legacy[0].id, raw_legacy);
}

#[test]
fn vector_object_store_reindexes_embedding_missing_from_manifest_on_open() {
    let mut store = Store::open();
    let (kept_raw, orphan_raw) = (RawNodeId::new(), RawNodeId::new());
    let orphan_abstract = AbstractNodeId::new();
    store.index_raw(kept_raw, [0.0, 1.0], None);
    store.index_raw(orphan_raw, [1.0, 0.0], None);
    store.index_abstract(orphan_abstract, [1.0, 0.0]);
    assert!(store.embeddings_are_listed());

    for list in store.raw_manifests.values_mut() {
        list.retain(|id| *id != orphan_raw);
    }
    for list in store.abstract_manifests.values_mut() {
        list.retain(|id| *id != orphan_abstract);
    }
    assert!(
        store.search_raw([1.0, 0.0], 8, None).iter().all(|hit| hit.id != orphan_raw),
        "before reconciliation the orphaned raw embedding must be invisible"
    );
    assert!(
        store.search_abstract([1.0, 0.0], 8).is_empty(),
        "before reconciliation the orphaned abstract embedding must be invisible"
    );
    assert!(!store.embeddings_are_listed());

    let store = store.reopened();
    let recovered: Vec<RawNodeId> =
        store.search_raw([1.0, 0.0], 8, None).iter().map(|hit| hit.id).collect();
    assert!(
        recovered.contains(&orphan_raw),
        "reopen must reindex the orphaned raw embedding from its surviving body"
    );
    assert!(
        recovered.contains(&kept_raw),
        "the already-indexed embedding must remain searchable after rebuild"
    );
    let recovered = store.search_abstract([1.0, 0.0], 8);
    assert_eq!(
        recovered.len(),
        1,
        "reopen must reindex the orphaned abstract embedding from its surviving body"
    );
    assert_eq!(recovered[0].id, orphan_abstract);
}

#[test]
fn rebuilt_stores_are_whole_and_stay_as_they_are() {
    let mut store = Store::open();
    let sessions = [SessionId::new(), SessionId::new()];
    for k in 0..7 {
        let session_id = sessions[k as usize % 2];
        let at = Timestamp { secs: NOW.secs + (k % 3) * DAY, nanos: 0 };
        let kept = node(RawNodeKind::Note, session_id, LoopId::new(), "system", "text", 0.5, at);
        store.insert_raw(&kept);
        store.index_raw(kept.id, [1.0, k as f32], Some(session_id));
        store.index_abstract(AbstractNodeId::new(), [k as f32, 1.0]);
    }
    let written = store.indexes.clone();
    let once = store.rebuilt();
    assert!(once.nodes_are_listed());
    assert!(once.embeddings_are_listed());
    assert_eq!(once.indexes, written);
    let twice = once.clone().rebuilt();
    assert_eq!(twice.indexes, once.indexes);
    assert_eq!(twice.raw_manifests, once.raw_manifests);
    assert_eq!(twice.abstract_manifests, once.abstract_manifests);
}

#[test]
fn sessions_find_the_best_of_their_own_embeddings() {
    let mut store = Store::open();
    let (session_a, session_b) = (SessionId::new(), SessionId::new());
    let mut expected = Vec::new();
    for k in 0..5 {
        let id = RawNodeId::new();
        store.index_raw(id, [1.0, k as f32], Some(session_a));
        store.index_raw(RawNodeId::new(), [1.0, 0.0], Some(session_b));
        expected.push(id);
    }
    let found: Vec<RawNodeId> =
        store.search_raw([1.0, 0.0], 3, Some(session_a)).iter().map(|hit| hit.id).collect();
    assert_eq!(found, expected[..3]);
    let store = store.rebuilt();
    let again: Vec<RawNodeId> =
        store.search_raw([1.0, 0.0], 3, Some(session_a)).iter().map(|hit| hit.id).collect();
    assert_eq!(again, found);
}

#[test]
fn embeddings_are_found_only_in_the_session_they_are_stored_for() {
    let mut store = Store::open();
    let (session_a, session_b) = (SessionId::new(), SessionId::new());
    let (moved, kept) = (RawNodeId::new(), RawNodeId::new());
    store.index_raw(moved, [1.0, 0.0], Some(session_a));
    store.index_raw(kept, [1.0, 1.0], Some(session_a));
    store.index_raw(moved, [1.0, 0.0], Some(session_b));
    let found = |store: &Store, session: SessionId| -> Vec<RawNodeId> {
        store.search_raw([1.0, 0.0], 8, Some(session)).iter().map(|hit| hit.id).collect()
    };
    // The first list still names the embedding that moved.
    assert!(store.raw_manifests[&raw_embedding_shard_path(Some(session_a))].contains(&moved));
    assert_eq!(found(&store, session_a), vec![kept]);
    assert_eq!(found(&store, session_b), vec![moved]);
    let store = store.rebuilt();
    assert_eq!(found(&store, session_a), vec![kept]);
    assert_eq!(found(&store, session_b), vec![moved]);

    let listed = [ListedEmbedding {
        id: AbstractNodeId::new(),
        session_id: Some(session_a),
        score: Float32::from_bits(1.0f32.to_bits()),
    }];
    assert_eq!(search_listed_abstracts(&listed, Some(session_a), 3).len(), 1);
    assert!(search_listed_abstracts(&listed, Some(session_b), 3).is_empty());
    assert!(search_listed_abstracts(&listed, None, 3).is_empty());
}

#[test]
fn sessions_read_their_timeline_newest_first() {
    let mut store = Store::open();
    let session_id = SessionId::new();
    let mut expected = Vec::new();
    for k in 0..4 {
        let at = NOW.plus(Duration::from_secs(k * 60)).unwrap();
        let kept = node(RawNodeKind::Note, session_id, LoopId::new(), "system", "text", 0.5, at);
        store.insert_raw(&kept);
        expected.insert(0, kept.id);
    }
    let entries = store.index(&session_index_path(&session_id));
    let found = store.read(session_timeline(&entries, None, None, 3));
    assert_eq!(ids(&found), expected[..3]);
}
