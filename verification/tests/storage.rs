use takos_agent_engine::domain::abstract_node::{
    AbstractNode, AbstractNodeMetadata, GraphFragment, References,
};
use takos_agent_engine::domain::loop_state::{LoopState, LoopStatus};
use takos_agent_engine::domain::raw_node::{
    DistillationState, OverflowPolicy, RawNode, RawNodeKind,
};
use takos_agent_engine::domain::relation::Relation;
use takos_agent_engine::engine::execution_graph::{ExecutionState, SessionRequest};
use takos_agent_engine::error::EngineError;
use takos_agent_engine::float32::Float32;
use takos_agent_engine::ids::{AbstractNodeId, LoopId, RawNodeId, SessionId};
use takos_agent_engine::model::embedding::Embedding;
use takos_agent_engine::storage::claims::DistillationClaims;
use takos_agent_engine::storage::graph::edges_for_abstract;
use takos_agent_engine::storage::in_memory::{
    InMemoryLoopStateRepository, InMemoryNodeRepository,
};
use takos_agent_engine::storage::records::{
    GraphTraversalHit, RawLifecyclePatch, ScoredAbstractRef, ScoredRawRef,
};
use takos_agent_engine::storage::rows::{
    adjacency_from_rows, stored_abstract_id, stored_raw_id, stored_session_id, EdgeRow,
};
use takos_agent_engine::storage::vector::{
    entry_matches_session_filter, rank_abstract, rank_raw, InMemoryVectorIndex,
};
use takos_agent_engine::storage::walk::{
    stored_edges, traverse, GraphWalk, InMemoryGraphRepository, WalkPlan,
};
use takos_agent_engine::time::{Duration, Timestamp};

fn float(value: f32) -> Float32 {
    Float32::from_bits(value.to_bits())
}

fn embedding(values: &[f32]) -> Embedding {
    Embedding(values.iter().map(|value| float(*value)).collect())
}

fn at(secs: i64) -> Timestamp {
    Timestamp { secs, nanos: 0 }
}

fn make_raw_node(session_id: Option<SessionId>, loop_id: Option<LoopId>, text: &str) -> RawNode {
    RawNode::text(
        RawNodeKind::UserUtterance,
        session_id,
        loop_id,
        "test",
        text,
        float(0.5),
        Vec::new(),
    )
}

fn make_abstract_node(title: &str) -> AbstractNode {
    AbstractNode::new(
        title,
        "summary",
        References::default(),
        GraphFragment::default(),
        AbstractNodeMetadata::default(),
    )
}

fn not_after(left: &Timestamp, right: &Timestamp) -> bool {
    !right.is_before(left)
}

#[test]
fn insert_and_get_raw() {
    let mut repo = InMemoryNodeRepository::default();
    let node = make_raw_node(None, None, "hello");
    let id = node.id;
    repo.insert_raw(node.clone());
    let fetched = repo.get_raw(&id);
    assert_eq!(fetched.unwrap().id, id);
}

#[test]
fn get_raw_missing_returns_none() {
    let repo = InMemoryNodeRepository::default();
    let id = RawNodeId::new();
    let result = repo.get_raw(&id);
    assert!(result.is_none());
}

#[test]
fn list_raw_returns_matching() {
    let mut repo = InMemoryNodeRepository::default();
    let a = make_raw_node(None, None, "a");
    let b = make_raw_node(None, None, "b");
    let c = make_raw_node(None, None, "c");
    let id_a = a.id;
    let id_c = c.id;
    repo.insert_raw(a);
    repo.insert_raw(b);
    repo.insert_raw(c);

    let result = repo.list_raw(&[id_a, id_c]);
    assert_eq!(result.len(), 2);
    let ids: Vec<_> = result.iter().map(|n| n.id).collect();
    assert!(ids.contains(&id_a));
    assert!(ids.contains(&id_c));
}

#[test]
fn list_raw_skips_missing() {
    let mut repo = InMemoryNodeRepository::default();
    let node = make_raw_node(None, None, "present");
    let id = node.id;
    repo.insert_raw(node);

    let missing_id = RawNodeId::new();
    let result = repo.list_raw(&[id, missing_id]);
    assert_eq!(result.len(), 1);
}

#[test]
fn session_raw_returns_sorted_by_timestamp() {
    let mut repo = InMemoryNodeRepository::default();
    let sid = SessionId::new();
    let a = make_raw_node(Some(sid), None, "first");
    let b = make_raw_node(Some(sid), None, "second");
    repo.insert_raw(a.clone());
    repo.insert_raw(b.clone());

    let result = repo.session_raw(&sid);
    assert_eq!(result.len(), 2);
    assert!(not_after(&result[0].timestamp, &result[1].timestamp));
}

#[test]
fn session_raw_empty_for_unknown_session() {
    let repo = InMemoryNodeRepository::default();
    let result = repo.session_raw(&SessionId::new());
    assert!(result.is_empty());
}

#[test]
fn raw_for_loop_returns_sorted() {
    let mut repo = InMemoryNodeRepository::default();
    let lid = LoopId::new();
    let a = make_raw_node(None, Some(lid), "first");
    let b = make_raw_node(None, Some(lid), "second");
    repo.insert_raw(a);
    repo.insert_raw(b);

    let result = repo.raw_for_loop(&lid);
    assert_eq!(result.len(), 2);
    assert!(not_after(&result[0].timestamp, &result[1].timestamp));
}

#[test]
fn raw_for_loop_empty_for_unknown() {
    let repo = InMemoryNodeRepository::default();
    let result = repo.raw_for_loop(&LoopId::new());
    assert!(result.is_empty());
}

#[test]
fn update_raw_lifecycle_distillation_state() {
    let mut repo = InMemoryNodeRepository::default();
    let node = make_raw_node(None, None, "test");
    let id = node.id;
    repo.insert_raw(node);

    let patch = RawLifecyclePatch {
        distillation_state: Some(DistillationState::Distilled),
        overflow: None,
    };
    repo.update_raw_lifecycle(&[id], &patch);

    let updated = repo.get_raw(&id).unwrap();
    assert_eq!(updated.distillation_state, DistillationState::Distilled);
}

#[test]
fn update_raw_lifecycle_overflow() {
    let mut repo = InMemoryNodeRepository::default();
    let node = make_raw_node(None, None, "test");
    let id = node.id;
    repo.insert_raw(node);

    let patch = RawLifecyclePatch {
        distillation_state: None,
        overflow: Some(OverflowPolicy {
            was_pushed_out_of_session: true,
            relax_retrieval_until: None,
        }),
    };
    repo.update_raw_lifecycle(&[id], &patch);

    let updated = repo.get_raw(&id).unwrap();
    assert!(updated.overflow.was_pushed_out_of_session);
}

#[test]
fn update_raw_lifecycle_ignores_missing_ids() {
    let mut repo = InMemoryNodeRepository::default();
    let missing_id = RawNodeId::new();
    let patch = RawLifecyclePatch {
        distillation_state: Some(DistillationState::Distilled),
        overflow: None,
    };
    repo.update_raw_lifecycle(&[missing_id], &patch);
    assert!(repo.get_raw(&missing_id).is_none());
}

#[test]
fn recent_session_raw_limits_results() {
    let mut repo = InMemoryNodeRepository::default();
    let sid = SessionId::new();
    for i in 0..5 {
        let node = make_raw_node(Some(sid), None, &format!("msg {i}"));
        repo.insert_raw(node);
    }

    let result = repo.recent_session_raw(&sid, 2);
    assert_eq!(result.len(), 2);
    assert!(not_after(&result[0].timestamp, &result[1].timestamp));
}

#[test]
fn timeline_raw_no_filters() {
    let mut repo = InMemoryNodeRepository::default();
    let sid = SessionId::new();
    for i in 0..3 {
        let node = make_raw_node(Some(sid), None, &format!("msg {i}"));
        repo.insert_raw(node);
    }

    let result = repo.timeline_raw(None, None, None, 10);
    assert_eq!(result.len(), 3);
    assert!(not_after(&result[1].timestamp, &result[0].timestamp));
}

#[test]
fn timeline_raw_with_limit() {
    let mut repo = InMemoryNodeRepository::default();
    for i in 0..5 {
        let node = make_raw_node(None, None, &format!("msg {i}"));
        repo.insert_raw(node);
    }

    let result = repo.timeline_raw(None, None, None, 2);
    assert_eq!(result.len(), 2);
}

#[test]
fn undistilled_raw_returns_undistilled() {
    let mut repo = InMemoryNodeRepository::default();
    let a = make_raw_node(None, None, "undistilled");
    let id_a = a.id;
    repo.insert_raw(a);

    let mut b = make_raw_node(None, None, "distilled");
    b.distillation_state = DistillationState::Distilled;
    repo.insert_raw(b);

    let result = repo.undistilled_raw(10, false);
    assert_eq!(result.len(), 1);
    assert_eq!(result[0].id, id_a);
}

#[test]
fn undistilled_raw_only_pushed_out() {
    let mut repo = InMemoryNodeRepository::default();
    let a = make_raw_node(None, None, "not pushed out");
    repo.insert_raw(a);

    let mut b = make_raw_node(None, None, "pushed out");
    b.overflow.was_pushed_out_of_session = true;
    let id_b = b.id;
    repo.insert_raw(b);

    let result = repo.undistilled_raw(10, true);
    assert_eq!(result.len(), 1);
    assert_eq!(result[0].id, id_b);
}

#[test]
fn insert_and_get_abstract() {
    let mut repo = InMemoryNodeRepository::default();
    let node = make_abstract_node("test title");
    let id = node.id;
    repo.insert_abstract(node);
    let fetched = repo.get_abstract(&id);
    assert_eq!(fetched.unwrap().id, id);
}

#[test]
fn get_abstract_missing_returns_none() {
    let repo = InMemoryNodeRepository::default();
    let result = repo.get_abstract(&AbstractNodeId::new());
    assert!(result.is_none());
}

#[test]
fn list_abstract_returns_matching() {
    let mut repo = InMemoryNodeRepository::default();
    let a = make_abstract_node("a");
    let b = make_abstract_node("b");
    let id_a = a.id;
    let id_b = b.id;
    repo.insert_abstract(a);
    repo.insert_abstract(b);

    let result = repo.list_abstract(&[id_a, id_b]);
    assert_eq!(result.len(), 2);
}

#[test]
fn get_raw_by_operation_key() {
    let mut repo = InMemoryNodeRepository::default();
    let node = make_raw_node(None, None, "keyed").with_operation_key("op-1");
    let id = node.id;
    repo.insert_raw(node);

    let found = repo.get_raw_by_operation_key("op-1");
    assert_eq!(found.unwrap().id, id);

    let missing = repo.get_raw_by_operation_key("op-2");
    assert!(missing.is_none());
}

#[test]
fn get_abstract_by_operation_key() {
    let mut repo = InMemoryNodeRepository::default();
    let node = make_abstract_node("keyed").with_operation_key("abs-op-1");
    let id = node.id;
    repo.insert_abstract(node);

    let found = repo.get_abstract_by_operation_key("abs-op-1");
    assert_eq!(found.unwrap().id, id);

    let missing = repo.get_abstract_by_operation_key("abs-op-2");
    assert!(missing.is_none());
}

fn loop_state(session_id: SessionId, loop_id: LoopId, goal: &str, iteration: u32) -> LoopState {
    let mut state = ExecutionState::from_request(
        SessionRequest {
            session_id: Some(session_id),
            user_message: goal.to_string(),
            plan: None,
        },
        session_id,
        loop_id,
    );
    state.iteration = iteration;
    state.checkpoint("start".to_string(), LoopStatus::Running)
}

#[test]
fn save_and_load_checkpoint() {
    let mut repo = InMemoryLoopStateRepository::default();
    let sid = SessionId::new();
    let lid = LoopId::new();
    repo.save_checkpoint(loop_state(sid, lid, "test goal", 0));
    let loaded = repo.load_checkpoint(&sid, &lid).unwrap();
    assert_eq!(loaded.session_id, sid);
    assert_eq!(loaded.loop_id, lid);
    assert_eq!(loaded.current_node, "start");
    assert_eq!(loaded.status, LoopStatus::Running);
    assert_eq!(loaded.state.user_message, "test goal");
}

#[test]
fn load_checkpoint_missing_returns_none() {
    let repo = InMemoryLoopStateRepository::default();
    let result = repo.load_checkpoint(&SessionId::new(), &LoopId::new());
    assert!(result.is_none());
}

#[test]
fn clear_checkpoint() {
    let mut repo = InMemoryLoopStateRepository::default();
    let sid = SessionId::new();
    let lid = LoopId::new();
    repo.save_checkpoint(loop_state(sid, lid, "test", 0));
    assert!(repo.load_checkpoint(&sid, &lid).is_some());

    repo.clear_checkpoint(&sid, &lid);
    assert!(repo.load_checkpoint(&sid, &lid).is_none());
}

#[test]
fn clear_checkpoint_noop_for_missing() {
    let mut repo = InMemoryLoopStateRepository::default();
    let sid = SessionId::new();
    let lid = LoopId::new();
    repo.save_checkpoint(loop_state(sid, lid, "kept", 0));
    repo.clear_checkpoint(&SessionId::new(), &LoopId::new());
    assert!(repo.load_checkpoint(&sid, &lid).is_some());
}

#[test]
fn save_checkpoint_overwrites() {
    let mut repo = InMemoryLoopStateRepository::default();
    let sid = SessionId::new();
    let lid = LoopId::new();

    repo.save_checkpoint(loop_state(sid, lid, "goal v1", 1));
    repo.save_checkpoint(loop_state(sid, lid, "goal v2", 5));

    let loaded = repo.load_checkpoint(&sid, &lid).unwrap();
    assert_eq!(loaded.state.iteration, 5);
    assert_eq!(loaded.state.user_message, "goal v2");
}

#[test]
fn raw_writes_are_read_back_along_every_path() {
    let mut repo = InMemoryNodeRepository::default();
    let sid = SessionId::new();
    let lid = LoopId::new();
    let other = make_raw_node(Some(sid), Some(lid), "other");
    let node = make_raw_node(Some(sid), Some(lid), "node").with_operation_key("op");
    repo.insert_raw(other.clone());
    repo.insert_raw(node.clone());
    assert_eq!(repo.get_raw(&node.id).unwrap(), node);
    assert_eq!(repo.get_raw(&other.id).unwrap(), other);
    assert_eq!(repo.get_raw_by_operation_key("op").unwrap(), node);
    assert!(repo.session_raw(&sid).contains(&node));
    assert!(repo.raw_for_loop(&lid).contains(&node));
    assert!(repo.timeline_raw(None, None, None, 10).contains(&node));
    assert_eq!(repo.raw_for_loop_bounded(&lid, 1).len(), 1);
}

#[test]
fn commits_under_one_key_happen_once() {
    let mut repo = InMemoryNodeRepository::default();
    let first = make_raw_node(None, None, "first").with_operation_key("op");
    let second = make_raw_node(None, None, "second").with_operation_key("op");
    let one = repo.insert_raw_once(first.clone());
    assert!(one.inserted);
    assert!(!one.projections_committed);
    assert_eq!(one.node, first);
    let two = repo.insert_raw_once(second.clone());
    assert!(!two.inserted);
    assert_eq!(two.node, first);
    assert!(repo.get_raw(&second.id).is_none());

    let unkeyed = make_raw_node(None, None, "unkeyed");
    assert!(repo.insert_raw_once(unkeyed.clone()).inserted);
    assert!(repo.insert_raw_once(unkeyed).inserted);

    let title = make_abstract_node("title").with_operation_key("abs");
    assert!(repo.insert_abstract_once(title.clone()).inserted);
    let again = repo.insert_abstract_once(make_abstract_node("again").with_operation_key("abs"));
    assert!(!again.inserted);
    assert_eq!(again.node.id, title.id);
}

#[test]
fn patches_change_lifecycle_alone() {
    let mut repo = InMemoryNodeRepository::default();
    let node = make_raw_node(None, None, "changed");
    let other = make_raw_node(None, None, "untouched");
    repo.insert_raw(node.clone());
    repo.insert_raw(other.clone());
    let patch = RawLifecyclePatch {
        distillation_state: Some(DistillationState::PartiallyDistilled),
        overflow: Some(OverflowPolicy {
            was_pushed_out_of_session: true,
            relax_retrieval_until: Some(at(7)),
        }),
    };
    repo.update_raw_lifecycle(&[node.id, node.id, RawNodeId::new()], &patch);
    let mut expected = node.clone();
    expected.distillation_state = DistillationState::PartiallyDistilled;
    expected.overflow = OverflowPolicy {
        was_pushed_out_of_session: true,
        relax_retrieval_until: Some(at(7)),
    };
    assert_eq!(repo.get_raw(&node.id).unwrap(), expected);
    assert_eq!(repo.get_raw(&other.id).unwrap(), other);
}

#[test]
fn reads_go_by_time_and_window() {
    let mut repo = InMemoryNodeRepository::default();
    let sid = SessionId::new();
    let mut nodes = Vec::new();
    for secs in [30i64, 10, 20, 20] {
        let mut node = make_raw_node(Some(sid), None, "text");
        node.timestamp = at(secs);
        repo.insert_raw(node.clone());
        nodes.push(node);
    }
    let ids = |list: Vec<RawNode>| list.iter().map(|node| node.id).collect::<Vec<_>>();
    assert_eq!(
        ids(repo.session_raw(&sid)),
        vec![nodes[1].id, nodes[2].id, nodes[3].id, nodes[0].id]
    );
    assert_eq!(
        ids(repo.recent_session_raw(&sid, 2)),
        vec![nodes[3].id, nodes[0].id]
    );
    assert_eq!(
        ids(repo.timeline_raw(Some(&sid), Some(at(20)), Some(at(30)), 10)),
        vec![nodes[0].id, nodes[2].id, nodes[3].id]
    );
    assert_eq!(
        ids(repo.timeline_raw(None, None, Some(at(19)), 10)),
        vec![nodes[1].id]
    );
    assert_eq!(ids(repo.timeline_raw(None, None, None, 1)), vec![nodes[0].id]);
    assert_eq!(
        ids(repo.undistilled_raw(2, false)),
        vec![nodes[1].id, nodes[2].id]
    );
    assert!(repo.recent_session_raw(&sid, 0).is_empty());
}

#[test]
fn stale_distillation_claim_cannot_release_successor() {
    let mut claims = DistillationClaims::default();
    let session_id = SessionId::new();
    let loop_id = LoopId::new();
    let start = at(1_000);
    let old = claims
        .try_claim_distillation(
            session_id,
            loop_id,
            "old".to_string(),
            Duration::from_millis(1),
            start,
            "lease-1".to_string(),
        )
        .unwrap()
        .expect("first claim");
    assert_eq!(old.expires_at, Timestamp { secs: 1_000, nanos: 1_000_000 });
    let later = start.plus(Duration::from_millis(5)).unwrap();
    let successor = claims
        .try_claim_distillation(
            session_id,
            loop_id,
            "new".to_string(),
            Duration::from_secs(1),
            later,
            "lease-2".to_string(),
        )
        .unwrap()
        .expect("expired claim should be replaceable");
    assert!(!claims.distillation_claim_is_current(&old, later));
    claims.release_distillation_claim(&old);
    assert!(claims.distillation_claim_is_current(&successor, later));
    claims.release_distillation_claim(&successor);
    assert!(!claims.distillation_claim_is_current(&successor, later));
}

#[test]
fn live_claims_exclude_others() {
    let mut claims = DistillationClaims::default();
    let session_id = SessionId::new();
    let loop_id = LoopId::new();
    let lease = Duration::from_secs(10);
    let mut claim = |loop_id: LoopId, secs: i64, lease_id: &str| {
        claims
            .try_claim_distillation(
                session_id,
                loop_id,
                "digest".to_string(),
                lease,
                at(secs),
                lease_id.to_string(),
            )
            .unwrap()
    };
    assert!(claim(loop_id, 0, "a").is_some());
    assert!(claim(loop_id, 9, "b").is_none());
    assert!(claim(LoopId::new(), 9, "c").is_some());
    let taken = claim(loop_id, 10, "d").unwrap();
    assert_eq!(taken.lease_id, "d");
    assert_eq!(taken.input_digest, "digest");
    assert_eq!(taken.expires_at, at(20));
}

#[test]
fn leases_beyond_the_calendar_are_refused() {
    let mut claims = DistillationClaims::default();
    let result = claims.try_claim_distillation(
        SessionId::new(),
        LoopId::new(),
        "digest".to_string(),
        Duration::longest(),
        at(0),
        "lease".to_string(),
    );
    match result {
        Err(EngineError::Storage(message)) => {
            assert_eq!(message, "distillation lease ends after the calendar")
        }
        other => panic!("unexpected {other:?}"),
    }
}

fn linked(title: &str, targets: &[(AbstractNodeId, &str)], session: Option<SessionId>) -> AbstractNode {
    let mut node = make_abstract_node(title);
    node.session_id = session;
    for (target, predicate) in targets {
        node.graph.relations.push(Relation {
            subject: title.to_string(),
            predicate: predicate.to_string(),
            object: target.to_string(),
            weight: float(1.0),
            provenance_raw_node_ids: Vec::new(),
        });
    }
    node
}

fn hit(node_id: AbstractNodeId, depth: usize, via: Option<&str>) -> GraphTraversalHit {
    GraphTraversalHit {
        node_id,
        depth,
        via_predicate: via.map(|text| text.to_string()),
    }
}

#[test]
fn edges_are_collected_once_and_in_order() {
    let a = AbstractNodeId::new();
    let b = AbstractNodeId::new();
    let (low, high) = if a.to_string() < b.to_string() { (a, b) } else { (b, a) };
    let mut node = linked("n", &[(high, "zeta"), (low, "zeta"), (high, "zeta")], None);
    node.graph.relations.push(Relation {
        subject: "n".to_string(),
        predicate: "about".to_string(),
        object: "not an identifier".to_string(),
        weight: float(1.0),
        provenance_raw_node_ids: Vec::new(),
    });
    node.references.abstract_node_ids = vec![high, high];
    let edges = edges_for_abstract(&node);
    let seen: Vec<_> = edges
        .iter()
        .map(|edge| (edge.to, edge.predicate.as_str()))
        .collect();
    assert_eq!(seen, vec![(high, "reference"), (low, "zeta"), (high, "zeta")]);
}

#[test]
fn walks_go_outwards_and_visit_nodes_once() {
    let mut graph = InMemoryGraphRepository::default();
    let c = make_abstract_node("c");
    let b = linked("b", &[(c.id, "next")], None);
    let a = linked("a", &[(b.id, "next"), (c.id, "skip")], None);
    let c = {
        let mut c = c;
        c.references.abstract_node_ids.push(a.id);
        c
    };
    let unknown = AbstractNodeId::new();
    let b = {
        let mut b = b;
        b.references.abstract_node_ids.push(unknown);
        b
    };
    for node in [&a, &b, &c] {
        graph.index_abstract(node);
    }
    assert_eq!(
        graph.traverse(&a.id, 5, None),
        vec![
            hit(a.id, 0, None),
            hit(b.id, 1, Some("next")),
            hit(c.id, 1, Some("skip")),
            hit(unknown, 2, Some("reference")),
        ]
    );
    assert_eq!(graph.traverse(&a.id, 0, None), vec![hit(a.id, 0, None)]);
    assert_eq!(
        graph.traverse(&a.id, 5, Some(vec!["next".to_string()])),
        vec![
            hit(a.id, 0, None),
            hit(b.id, 1, Some("next")),
            hit(c.id, 2, Some("next")),
        ]
    );
}

#[test]
fn walks_take_the_shortest_way() {
    let mut graph = InMemoryGraphRepository::default();
    let end = make_abstract_node("end");
    let third = linked("third", &[(end.id, "far")], None);
    let second = linked("second", &[(third.id, "far")], None);
    let first = linked("first", &[(second.id, "far")], None);
    let near = linked("near", &[(end.id, "near")], None);
    let start = linked("start", &[(first.id, "far"), (near.id, "near")], None);
    for node in [&start, &first, &second, &third, &near, &end] {
        graph.index_abstract(node);
    }
    let depth = |id: AbstractNodeId| {
        let hits = graph.traverse(&start.id, 9, None);
        hits.iter().find(|hit| hit.node_id == id).map(|hit| hit.depth)
    };
    assert_eq!(depth(end.id), Some(2));
    assert_eq!(depth(third.id), Some(3));
    assert_eq!(graph.traverse(&start.id, 2, None).len(), 5);
}

#[test]
fn scoped_walks_stay_in_their_session_and_number() {
    let mut graph = InMemoryGraphRepository::default();
    let session = SessionId::new();
    let foreign = linked("foreign", &[], Some(SessionId::new()));
    let near = linked("near", &[], Some(session));
    let start = linked(
        "start",
        &[(foreign.id, "a"), (near.id, "b"), (AbstractNodeId::new(), "c")],
        Some(session),
    );
    for node in [&foreign, &near, &start] {
        graph.index_abstract(node);
    }
    assert_eq!(
        graph.traverse_scoped(&start.id, 3, None, Some(session), 10),
        vec![hit(start.id, 0, None), hit(near.id, 1, Some("b"))]
    );
    assert_eq!(
        graph.traverse_scoped(&start.id, 3, None, None, 2),
        vec![hit(start.id, 0, None), hit(foreign.id, 1, Some("a"))]
    );
    assert_eq!(
        graph.traverse_scoped(&start.id, 3, None, None, 0),
        vec![hit(start.id, 0, None)]
    );
    assert!(graph
        .traverse_scoped(&AbstractNodeId::new(), 3, None, None, 5)
        .is_empty());
}

#[test]
fn walks_ask_for_one_record_after_the_other() {
    let end = make_abstract_node("end");
    let start = linked("start", &[(end.id, "to")], None);
    let plan = WalkPlan {
        max_depth: 2,
        relation_types: None,
        session_id: None,
        max_hits: Some(8),
    };
    let mut walk = GraphWalk::from(start.id, plan);
    assert_eq!(walk.advance(), Some(start.id));
    walk.enter(Some(&stored_edges(&start)));
    assert_eq!(walk.advance(), Some(end.id));
    walk.enter(None);
    assert_eq!(walk.advance(), None);
    assert_eq!(walk.into_hits(), vec![hit(start.id, 0, None)]);
}

#[test]
fn stored_edges_are_gathered_by_node() {
    let a = AbstractNodeId::new();
    let b = AbstractNodeId::new();
    let row = |from: &str, to: &str, predicate: &str| EdgeRow {
        from_id: from.to_string(),
        to_id: to.to_string(),
        predicate: predicate.to_string(),
    };
    let (a_text, b_text) = (a.to_string(), b.to_string());
    let table = adjacency_from_rows(vec![
        row(&a_text, &b_text, "z"),
        row(&b_text, &a_text, "m"),
        row(&a_text, &a_text, "k"),
    ])
    .unwrap();
    let found: Vec<_> = table.get(&a).unwrap().edges.iter().map(|edge| edge.predicate.as_str()).collect();
    assert_eq!(found, vec!["k", "z"]);
    let plan = WalkPlan {
        max_depth: 1,
        relation_types: None,
        session_id: None,
        max_hits: None,
    };
    assert_eq!(
        traverse(&table, true, a, plan),
        vec![hit(a, 0, None), hit(b, 1, Some("z"))]
    );
    for (rows, prefix) in [
        (vec![row("x", &a_text, "p")], "invalid graph from_id stored in sqlite: "),
        (vec![row(&a_text, "x", "p")], "invalid graph to_id stored in sqlite: "),
    ] {
        match adjacency_from_rows(rows) {
            Err(EngineError::Storage(message)) => {
                assert!(message.starts_with(prefix), "{message}");
                assert!(message.len() > prefix.len());
            }
            other => panic!("unexpected {other:?}"),
        }
    }
    assert_eq!(stored_abstract_id(&a_text).unwrap(), a);
    assert!(stored_abstract_id("no").is_err());
    let raw = RawNodeId::new();
    assert_eq!(stored_raw_id(&raw.to_string()).unwrap(), raw);
    match stored_raw_id("no") {
        Err(EngineError::Storage(message)) => {
            assert!(message.starts_with("invalid raw id stored in sqlite: "))
        }
        other => panic!("unexpected {other:?}"),
    }
    let session_id = SessionId::new();
    assert_eq!(stored_session_id(&session_id.to_string()).unwrap(), session_id);
    match stored_session_id("no") {
        Err(EngineError::Storage(message)) => {
            assert!(message.starts_with("invalid session id stored in sqlite: "))
        }
        other => panic!("unexpected {other:?}"),
    }
}

#[test]
fn search_candidates_belong_to_the_session() {
    let session_a = SessionId::new();
    let session_b = SessionId::new();
    let mut index = InMemoryVectorIndex::default();
    let raw_a = RawNodeId::new();
    let raw_b = RawNodeId::new();
    let raw_none = RawNodeId::new();
    index.index_raw_with_session(raw_a, embedding(&[1.0, 0.0]), Some(session_a));
    index.index_raw_with_session(raw_b, embedding(&[0.0, 1.0]), Some(session_b));
    index.index_raw(raw_none, embedding(&[1.0, 1.0]));
    let scoped = index.raw_candidates(Some(session_a));
    assert_eq!(scoped.len(), 1);
    assert_eq!(scoped[0].id, raw_a);
    assert_eq!(scoped[0].embedding, embedding(&[1.0, 0.0]));
    let free = index.raw_candidates(None);
    assert_eq!(free.len(), 1);
    assert_eq!(free[0].id, raw_none);

    let abstract_id = AbstractNodeId::new();
    index.index_abstract(abstract_id, embedding(&[0.5]));
    index.index_abstract_with_session(abstract_id, embedding(&[0.25]), Some(session_b));
    assert!(index.abstract_candidates(None).is_empty());
    assert_eq!(index.abstract_candidates(Some(session_b))[0].embedding, embedding(&[0.25]));

    assert!(entry_matches_session_filter(None, None));
    assert!(entry_matches_session_filter(Some(session_a), Some(session_a)));
    assert!(!entry_matches_session_filter(Some(session_a), Some(session_b)));
    assert!(!entry_matches_session_filter(None, Some(session_a)));
    assert!(!entry_matches_session_filter(Some(session_a), None));
}

#[test]
fn searches_keep_the_best() {
    let a = RawNodeId::new();
    let b = RawNodeId::new();
    let (low, high) = if a.to_string() < b.to_string() { (a, b) } else { (b, a) };
    let top = RawNodeId::new();
    let scored = vec![
        ScoredRawRef { id: high, score: float(0.5) },
        ScoredRawRef { id: top, score: float(0.9) },
        ScoredRawRef { id: low, score: float(0.5) },
        ScoredRawRef { id: RawNodeId::new(), score: float(-0.5) },
    ];
    let ranked: Vec<_> = rank_raw(scored.clone(), 3).iter().map(|item| item.id).collect();
    assert_eq!(ranked, vec![top, low, high]);
    assert_eq!(rank_raw(scored, 9).len(), 4);

    let best = AbstractNodeId::new();
    let ranked = rank_abstract(
        vec![
            ScoredAbstractRef { id: AbstractNodeId::new(), score: float(0.0) },
            ScoredAbstractRef { id: best, score: float(0.1) },
        ],
        1,
    );
    assert_eq!(ranked, vec![ScoredAbstractRef { id: best, score: float(0.1) }]);
}
