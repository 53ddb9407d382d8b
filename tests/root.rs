use engula_root::{
    make_admin_service, move_first, next_phase, AdminHandle, CollectionDesc, DatabaseDesc,
    DeleteEvent, Error, GroupDesc, GroupState, GroupUpdates, LeaderAction, LeaderEvent,
    LeaderPhase, NodeCapacity, NodeDesc, NodeIdent, NodeStatus, Partition, RaftRole, ReplicaDesc,
    ReplicaRole, ReplicaState, Root, Schema, ShardDesc, UpdateEvent, WatchHub,
};

fn node(id: u64, addr: &str) -> NodeDesc {
    NodeDesc {
        id,
        addr: addr.to_owned(),
        capacity: NodeCapacity { replica_count: 0, leader_count: 0 },
        status: NodeStatus::Active,
    }
}

fn voter(id: u64, node_id: u64) -> ReplicaDesc {
    ReplicaDesc { id, node_id, role: ReplicaRole::Voter }
}

fn ident() -> NodeIdent {
    NodeIdent { cluster_id: vec![7, 7], node_id: 1 }
}

fn create_root() -> Root {
    Root::new(&ident(), "0.0.0.0:8888".to_owned())
}

fn leading_root() -> Root {
    let mut root = create_root();
    root.step_leader(Schema::new()).unwrap();
    root
}

fn db(id: u64, name: &str) -> DatabaseDesc {
    DatabaseDesc { id, name: name.to_owned() }
}

#[test]
fn boostrap_root() {
    let mut root = create_root();
    assert!(!root.is_root());
    assert_eq!(root.current_node_id(), 1);
    root.step_leader(Schema::new()).unwrap();
    assert!(root.is_root());
    let schema = root.schema().unwrap();
    assert_eq!(schema.cluster_id().unwrap(), Some(vec![7, 7]));
    let roots = schema.get_root_replicas().unwrap();
    assert_eq!(roots, vec![node(1, "0.0.0.0:8888")]);
}

#[test]
fn watch_hub() {
    let mut root = create_root();
    let hub = root.watcher_hub_mut();
    let create_db1_event = UpdateEvent::Database(db(1, "db1"));
    let w = {
        let (w, initializer) = hub.create_watcher();
        hub.set_init_resp(initializer, vec![create_db1_event.clone()], vec![]);
        w
    };
    let resp1 = hub.next_batch(&w).unwrap();
    assert_eq!(resp1.updates[0], create_db1_event);

    let w2 = {
        let (w, _) = hub.create_watcher();
        w
    };

    let create_db2_event = UpdateEvent::Database(db(2, "db2"));
    hub.notify_updates(vec![create_db2_event.clone()]);
    let resp2 = hub.next_batch(&w).unwrap();
    assert_eq!(resp2.updates[0], create_db2_event);
    let resp22 = hub.next_batch(&w2).unwrap();
    assert_eq!(resp22.updates[0], create_db2_event);
}

#[test]
fn get_database_follows_create_and_delete() {
    let mut root = leading_root();
    let d = root.create_database("db1".to_owned()).unwrap();
    assert_eq!(root.get_database("db1").unwrap(), Some(d.clone()));
    root.delete_database("db1").unwrap();
    assert_eq!(root.get_database("db1").unwrap(), None);
    let d2 = root.create_database("db1".to_owned()).unwrap();
    assert_ne!(d2.id, d.id);
    assert_eq!(root.get_database("db1").unwrap(), Some(d2));
}

#[test]
fn create_database_twice_fails() {
    let mut root = leading_root();
    root.create_database("db1".to_owned()).unwrap();
    assert_eq!(
        root.create_database("db1".to_owned()),
        Err(Error::AlreadyExists("db1".to_owned()))
    );
}

#[test]
fn create_collection_in_missing_database_emits_nothing() {
    let mut root = leading_root();
    let w = root.watch(&vec![]).unwrap();
    root.watcher_hub_mut().next_batch(&w).unwrap();
    assert_eq!(
        root.create_collection("c1".to_owned(), "missing".to_owned()),
        Err(Error::DatabaseNotFound("missing".to_owned()))
    );
    assert!(root.watcher_hub_mut().next_batch(&w).is_none());
}

#[test]
fn deleting_absent_resources_emits_nothing() {
    let mut root = leading_root();
    root.create_database("db1".to_owned()).unwrap();
    let w = root.watch(&vec![]).unwrap();
    root.watcher_hub_mut().next_batch(&w).unwrap();
    assert_eq!(root.delete_database("nope"), Ok(()));
    assert_eq!(root.delete_collection("nope", "db1"), Ok(()));
    assert!(root.watcher_hub_mut().next_batch(&w).is_none());
    assert_eq!(
        root.delete_collection("nope", "missing"),
        Err(Error::DatabaseNotFound("missing".to_owned()))
    );
}

#[test]
fn delete_emits_delete_events() {
    let mut root = leading_root();
    let d = root.create_database("db1".to_owned()).unwrap();
    let c = root.create_collection("c1".to_owned(), "db1".to_owned()).unwrap();
    let w = root.watch(&vec![]).unwrap();
    root.watcher_hub_mut().next_batch(&w).unwrap();
    root.delete_collection("c1", "db1").unwrap();
    root.delete_database("db1").unwrap();
    let hub = root.watcher_hub_mut();
    assert_eq!(hub.next_batch(&w).unwrap().deletes, vec![DeleteEvent::Collection(c.id)]);
    assert_eq!(hub.next_batch(&w).unwrap().deletes, vec![DeleteEvent::Database(d.id)]);
    assert!(hub.next_batch(&w).is_none());
    assert_eq!(root.get_collection("c1", "db1").unwrap(), None);
}

#[test]
fn collection_scenario() {
    let mut root = leading_root();
    let db1 = root.create_database("db1".to_owned()).unwrap();
    let c1 = root.create_collection("c1".to_owned(), "db1".to_owned()).unwrap();
    assert_eq!(c1.name, "c1");
    assert_eq!(c1.parent_id, db1.id);
    assert_eq!(root.get_collection("c1", "db1").unwrap(), Some(c1));
    assert_eq!(
        root.create_collection("c1".to_owned(), "missing".to_owned()),
        Err(Error::DatabaseNotFound("missing".to_owned()))
    );
}

#[test]
fn watchers_see_batches_after_registration() {
    let mut hub = WatchHub::new();
    let (w1, _) = hub.create_watcher();
    let batch_a = vec![UpdateEvent::Database(db(1, "a"))];
    hub.notify_updates(batch_a.clone());
    let (w2, _) = hub.create_watcher();
    let batch_b = vec![UpdateEvent::Database(db(2, "b"))];
    hub.notify_updates(batch_b.clone());
    assert_eq!(hub.next_batch(&w1).unwrap().updates, batch_a);
    assert_eq!(hub.next_batch(&w1).unwrap().updates, batch_b);
    assert!(hub.next_batch(&w1).is_none());
    assert_eq!(hub.next_batch(&w2).unwrap().updates, batch_b);
    assert!(hub.next_batch(&w2).is_none());
}

#[test]
fn removed_watcher_receives_nothing() {
    let mut hub = WatchHub::new();
    let (w1, _) = hub.create_watcher();
    let (w1_again, _) = hub.create_watcher();
    hub.remove_watcher(w1);
    hub.notify_deletes(vec![DeleteEvent::Node(3)]);
    assert_eq!(hub.next_batch(&w1_again).unwrap().deletes, vec![DeleteEvent::Node(3)]);
}

#[test]
fn init_batch_comes_before_later_batches() {
    let mut hub = WatchHub::new();
    let (w, init) = hub.create_watcher();
    hub.notify_deletes(vec![DeleteEvent::Group(9)]);
    hub.set_init_resp(init, vec![UpdateEvent::Database(db(1, "x"))], vec![]);
    assert_eq!(hub.next_batch(&w).unwrap().updates, vec![UpdateEvent::Database(db(1, "x"))]);
    assert_eq!(hub.next_batch(&w).unwrap().deletes, vec![DeleteEvent::Group(9)]);
}

#[test]
fn lost_leadership_fails_without_events() {
    let mut root = leading_root();
    let w = root.watch(&vec![]).unwrap();
    root.watcher_hub_mut().next_batch(&w).unwrap();
    root.on_leadership_lost();
    assert_eq!(root.create_database("db1".to_owned()), Err(Error::NotLeader));
    assert!(root.watcher_hub_mut().next_batch(&w).is_none());
    let schema = root.step_follower().unwrap();
    assert!(!schema.is_leader());
    assert!(!root.is_root());
    assert_eq!(root.create_database("db1".to_owned()), Err(Error::NotRootLeader));
    assert_eq!(root.get_database("db1"), Err(Error::NotRootLeader));
    assert!(root.schema().is_err());
    assert!(root.watcher_hub_mut().next_batch(&w).is_none());
}

#[test]
fn step_leader_on_lost_replica_fails() {
    let mut root = create_root();
    let mut schema = Schema::new();
    schema.lose_leadership();
    let (e, back) = root.step_leader(schema).unwrap_err();
    assert_eq!(e, Error::NotLeader);
    assert!(!back.is_leader());
    assert!(!root.is_root());
}

#[test]
fn leadership_survives_terms() {
    let mut root = leading_root();
    root.create_database("db1".to_owned()).unwrap();
    let schema = root.step_follower().unwrap();
    root.step_leader(schema).unwrap();
    assert_eq!(root.get_database("db1").unwrap().unwrap().name, "db1");
    assert_eq!(root.schema().unwrap().get_root_replicas().unwrap().len(), 1);
}

#[test]
fn join_assigns_fresh_ids_and_orders_roots() {
    let mut root = leading_root();
    let (cluster, n1, roots) = root.join("10.0.0.2:1".to_owned()).unwrap();
    assert_eq!(cluster, vec![7, 7]);
    assert_eq!(n1.addr, "10.0.0.2:1");
    assert_ne!(n1.id, 1);
    assert_eq!(roots, vec![node(1, "0.0.0.0:8888")]);
    let (_, n2, _) = root.join("10.0.0.3:1".to_owned()).unwrap();
    assert!(n2.id != n1.id && n2.id != 1);
    // place the joined nodes in the root group
    root.report(vec![GroupUpdates {
        group_desc: Some(GroupDesc {
            id: 0,
            epoch: 1,
            shards: vec![],
            replicas: vec![
                voter(2, 1),
                voter(50, n1.id),
                voter(51, n2.id),
            ],
        }),
        replica_state: None,
    }])
    .unwrap();
    let mut roots = root.schema().unwrap().get_root_replicas().unwrap();
    let ids: Vec<u64> = roots.iter().map(|n| n.id).collect();
    assert_eq!(ids, vec![1, n1.id, n2.id]);
    move_first(&mut roots, n2.id);
    let ids: Vec<u64> = roots.iter().map(|n| n.id).collect();
    assert_eq!(ids, vec![n2.id, 1, n1.id]);
}

#[test]
fn join_emits_node_event() {
    let mut root = leading_root();
    let w = root.watch(&vec![]).unwrap();
    root.watcher_hub_mut().next_batch(&w).unwrap();
    let (_, n, _) = root.join("10.0.0.2:1".to_owned()).unwrap();
    let b = root.watcher_hub_mut().next_batch(&w).unwrap();
    assert_eq!(b.updates, vec![UpdateEvent::Node(n)]);
}

#[test]
fn move_first_without_match_keeps_order() {
    let mut v = vec![
        node(3, "a"),
        node(4, "b"),
    ];
    move_first(&mut v, 9);
    assert_eq!(v[0].id, 3);
    move_first(&mut v, 4);
    assert_eq!(v[0].id, 4);
    assert_eq!(v[1].id, 3);
}

fn state(replica_id: u64, group_id: u64, term: u64) -> ReplicaState {
    ReplicaState { replica_id, group_id, term, voted_for: 0, role: RaftRole::Follower, node_id: 1 }
}

fn leader_state(replica_id: u64, group_id: u64, term: u64) -> ReplicaState {
    ReplicaState { role: RaftRole::Leader, ..state(replica_id, group_id, term) }
}

#[test]
fn report_emits_states_only_for_reported_groups() {
    let mut root = leading_root();
    let w = root.watch(&vec![]).unwrap();
    root.watcher_hub_mut().next_batch(&w).unwrap();
    let g5 = GroupDesc {
        id: 5,
        epoch: 1,
        shards: vec![
            ShardDesc { id: 11, collection_id: 4, partition: Partition::Hash { slot_id: 0, slots: 4 } },
            ShardDesc {
                id: 12,
                collection_id: 4,
                partition: Partition::Range { start: vec![1], end: vec![9] },
            },
        ],
        replicas: vec![voter(8, 1)],
    };
    root.report(vec![
        GroupUpdates { group_desc: Some(g5.clone()), replica_state: None },
        GroupUpdates { group_desc: None, replica_state: Some(state(8, 6, 2)) },
        GroupUpdates { group_desc: None, replica_state: Some(leader_state(9, 6, 3)) },
    ])
    .unwrap();
    let b = root.watcher_hub_mut().next_batch(&w).unwrap();
    assert_eq!(
        b.updates,
        vec![
            UpdateEvent::Group(g5),
            UpdateEvent::GroupState(GroupState {
                group_id: 6,
                leader_id: Some(9),
                replicas: vec![state(8, 6, 2), leader_state(9, 6, 3)],
            }),
        ]
    );
    root.report(vec![]).unwrap();
    let empty = root.watcher_hub_mut().next_batch(&w).unwrap();
    assert!(empty.updates.is_empty() && empty.deletes.is_empty());
    assert!(root.watcher_hub_mut().next_batch(&w).is_none());
}

#[test]
fn report_replaces_replica_state() {
    let mut root = leading_root();
    root.report(vec![GroupUpdates { group_desc: None, replica_state: Some(state(8, 6, 2)) }])
        .unwrap();
    let w = root.watch(&vec![]).unwrap();
    root.watcher_hub_mut().next_batch(&w).unwrap();
    root.report(vec![GroupUpdates { group_desc: None, replica_state: Some(state(8, 6, 4)) }])
        .unwrap();
    let b = root.watcher_hub_mut().next_batch(&w).unwrap();
    assert_eq!(
        b.updates,
        vec![UpdateEvent::GroupState(GroupState { group_id: 6, leader_id: None, replicas: vec![state(8, 6, 4)] })]
    );
}

#[test]
fn watch_snapshot_reports_what_watcher_lacks() {
    let mut root = leading_root();
    let d = root.create_database("db1".to_owned()).unwrap();
    let c = root.create_collection("c1".to_owned(), "db1".to_owned()).unwrap();
    // the watcher saw the root group at its epoch, and a group that is gone
    let w = root.watch(&vec![(0, 0), (42, 3)]).unwrap();
    let b = root.watcher_hub_mut().next_batch(&w).unwrap();
    assert_eq!(
        b.updates,
        vec![
            UpdateEvent::Node(node(1, "0.0.0.0:8888")),
            UpdateEvent::GroupState(GroupState { group_id: 0, leader_id: None, replicas: vec![] }),
            UpdateEvent::Database(d),
            UpdateEvent::Collection(c.clone()),
        ]
    );
    assert_eq!(b.deletes, vec![DeleteEvent::Group(42)]);
    root.delete_collection("c1", "db1").unwrap();
    let b2 = root.watcher_hub_mut().next_batch(&w).unwrap();
    assert_eq!(b2.deletes, vec![DeleteEvent::Collection(c.id)]);
}

#[test]
fn watch_snapshot_includes_stale_groups() {
    let mut root = leading_root();
    let w = root.watch(&vec![]).unwrap();
    let b = root.watcher_hub_mut().next_batch(&w).unwrap();
    assert_eq!(
        b.updates[1],
        UpdateEvent::Group(GroupDesc { id: 0, epoch: 0, shards: vec![], replicas: vec![voter(2, 1)] })
    );
    assert!(b.deletes.is_empty());
}

#[test]
fn root_calls_fail_before_leading() {
    let mut root = create_root();
    assert_eq!(root.watch(&vec![]).err(), Some(Error::NotRootLeader));
    assert_eq!(root.join("x".to_owned()).err(), Some(Error::NotRootLeader));
    assert_eq!(root.report(vec![]), Err(Error::NotRootLeader));
    assert_eq!(root.delete_database("x"), Err(Error::NotRootLeader));
    assert_eq!(root.get_collection("c", "d"), Err(Error::NotRootLeader));
}

#[test]
fn schema_rejects_duplicate_collection() {
    let mut s = Schema::new();
    let c: CollectionDesc = s.create_collection("c".to_owned(), 4).unwrap();
    assert_eq!(c.parent_id, 4);
    assert_eq!(s.create_collection("c".to_owned(), 4), Err(Error::AlreadyExists("c".to_owned())));
    assert!(s.create_collection("c".to_owned(), 5).is_ok());
    assert_eq!(s.cluster_id().unwrap(), None);
}

#[test]
fn bootstrap_is_idempotent() {
    let mut s = Schema::new();
    s.try_bootstrap("a:1".to_owned(), vec![1]).unwrap();
    s.try_bootstrap("b:2".to_owned(), vec![2]).unwrap();
    assert_eq!(s.cluster_id().unwrap(), Some(vec![1]));
    assert_eq!(s.get_root_replicas().unwrap().len(), 1);
    assert_eq!(s.group_state(0).unwrap(), GroupState { group_id: 0, leader_id: None, replicas: vec![] });
}

#[test]
fn leader_phases() {
    assert_eq!(
        next_phase(LeaderPhase::WaitForReplica, LeaderEvent::ReplicaMissing),
        (LeaderPhase::WaitForReplica, LeaderAction::LocateReplica)
    );
    assert_eq!(
        next_phase(LeaderPhase::WaitForReplica, LeaderEvent::ReplicaFound),
        (LeaderPhase::WaitForLeadership, LeaderAction::AwaitLeadership)
    );
    assert_eq!(
        next_phase(LeaderPhase::WaitForLeadership, LeaderEvent::LeadershipFailed),
        (LeaderPhase::WaitForReplica, LeaderAction::LocateReplica)
    );
    assert_eq!(
        next_phase(LeaderPhase::WaitForLeadership, LeaderEvent::LeadershipAcquired),
        (LeaderPhase::Leading, LeaderAction::StepLeader)
    );
    assert_eq!(
        next_phase(LeaderPhase::Leading, LeaderEvent::HeartbeatDone),
        (LeaderPhase::Leading, LeaderAction::Heartbeat)
    );
    assert_eq!(
        next_phase(LeaderPhase::Leading, LeaderEvent::Fatal),
        (LeaderPhase::WaitForReplica, LeaderAction::StepFollower)
    );
    assert_eq!(
        next_phase(LeaderPhase::Leading, LeaderEvent::LeadershipLost),
        (LeaderPhase::WaitForReplica, LeaderAction::StepFollower)
    );
}

#[test]
fn admin_routes() {
    let svc = make_admin_service();
    assert_eq!(svc.router.prefix, vec!["/admin".to_owned()]);
    let paths: Vec<(&str, AdminHandle)> =
        svc.router.routes.iter().map(|r| (r.path.as_str(), r.handle)).collect();
    assert_eq!(
        paths,
        vec![
            ("/metrics", AdminHandle::Metrics),
            ("/job", AdminHandle::Job),
            ("/metadata", AdminHandle::Metadata),
            ("/health", AdminHandle::Health),
            ("/cordon", AdminHandle::Cordon),
            ("/uncordon", AdminHandle::Uncordon),
            ("/drain", AdminHandle::Drain),
            ("/node_status", AdminHandle::NodeStatus),
        ]
    );
}
