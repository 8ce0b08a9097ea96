use journal_server::cluster::NodeHealth;
use journal_server::engine::EngineConfig;
use journal_server::engine::JournalEngine;
use journal_server::engine::SegmentRef;
use journal_server::errors::JournalError;
use journal_server::segment::SegmentStatus;

fn config() -> EngineConfig {
    EngineConfig {
        rotation_max_size: 100,
        rotation_max_age: 1_000,
        isr_min_in_sync: 2,
        heartbeat_timeout: 30,
        local_node_id: 10,
    }
}

fn started_engine() -> JournalEngine {
    let mut engine = JournalEngine::new(config());
    engine.init_cluster();
    engine.load_from_store();
    engine
}

#[test]
fn cache_reflects_every_mutation_immediately() {
    let mut engine = started_engine();
    engine.create_shard(1, 7, 10).unwrap();
    engine.create_segment(1, 7, 0).unwrap();
    assert_eq!(engine.append(1, 7, 33), Ok((0, 33)));

    // a read right after the write sees exactly the persisted state
    let log = engine.get_segment(1, 7).unwrap();
    assert_eq!(log.segments.len(), 1);
    assert_eq!(log.segments[0].end_offset, 33);
    let isr = engine.get_isr(1, 7).unwrap();
    assert_eq!(isr.active_end_offset, 33);

    engine.on_replica_ack(1, 7, 11, 33).unwrap();
    let isr = engine.get_isr(1, 7).unwrap();
    assert!(isr.replicas.iter().any(|r| r.node_id == 11 && r.in_sync));
}

#[test]
fn reconciliation_matches_records_against_disk() {
    let mut engine = started_engine();
    engine.create_shard(1, 7, 10).unwrap();
    engine.create_segment(1, 7, 0).unwrap();
    engine.append(1, 7, 100).unwrap();
    engine.seal_segment(1, 7, 0, 100).unwrap();
    engine.create_segment(1, 7, 1).unwrap();
    // store now holds: segment 0 sealed, segment 1 active

    let both = vec![
        SegmentRef { namespace: 1, shard: 7, segment_id: 0 },
        SegmentRef { namespace: 1, shard: 7, segment_id: 1 },
    ];
    assert_eq!(engine.reconcile_with_local_files(&both), Ok(()));

    // the disk lost segment 1's file: startup must not proceed
    let missing = vec![SegmentRef { namespace: 1, shard: 7, segment_id: 0 }];
    assert_eq!(
        engine.reconcile_with_local_files(&missing),
        Err(JournalError::InconsistentState)
    );

    // an orphaned file without a record is just as inconsistent
    let orphan = vec![
        SegmentRef { namespace: 1, shard: 7, segment_id: 0 },
        SegmentRef { namespace: 1, shard: 7, segment_id: 1 },
        SegmentRef { namespace: 1, shard: 7, segment_id: 9 },
    ];
    assert_eq!(
        engine.reconcile_with_local_files(&orphan),
        Err(JournalError::InconsistentState)
    );
}

#[test]
fn scroll_rotates_a_full_segment() {
    let mut engine = started_engine();
    engine.create_shard(1, 7, 10).unwrap();
    engine.create_segment(1, 7, 0).unwrap();
    // fill the active segment to 100% of the rotation size
    engine.append(1, 7, 100).unwrap();

    engine.trigger_segment_scroll(500);

    let log = engine.get_segment(1, 7).unwrap();
    assert_eq!(log.segments.len(), 2);
    assert_eq!(log.segments[0].status, SegmentStatus::Sealed);
    assert_eq!(log.segments[0].end_offset, 100);
    assert_eq!(log.segments[1].status, SegmentStatus::Active);
    assert_eq!(log.segments[1].segment_id, 1);
    assert_eq!(log.segments[1].start_offset, 100);
    let actives = log.segments.iter().filter(|s| s.status == SegmentStatus::Active).count();
    assert_eq!(actives, 1);

    // a half-full segment does not rotate by size
    engine.append(1, 7, 40).unwrap();
    engine.trigger_segment_scroll(600);
    let log = engine.get_segment(1, 7).unwrap();
    assert_eq!(log.segments.len(), 2);

    // but it does rotate once it is older than the age threshold
    engine.trigger_segment_scroll(1_600);
    let log = engine.get_segment(1, 7).unwrap();
    assert_eq!(log.segments.len(), 3);
    assert_eq!(log.segments[2].start_offset, 140);
}

#[test]
fn request_errors_are_typed() {
    let mut engine = started_engine();
    engine.create_shard(1, 7, 10).unwrap();
    assert_eq!(engine.create_shard(1, 7, 10), Err(JournalError::ShardBusy));
    assert_eq!(engine.append(1, 7, 4), Err(JournalError::NotActive));
    assert_eq!(engine.append(9, 9, 4), Err(JournalError::NotActive));
    assert_eq!(engine.seal_segment(1, 7, 0, 0), Err(JournalError::NotActive));
    assert_eq!(
        engine.on_replica_ack(9, 9, 11, 0),
        Err(JournalError::InconsistentState)
    );
    engine.create_segment(1, 7, 0).unwrap();
    assert_eq!(engine.append(1, 7, 101), Err(JournalError::CapacityExceeded));
    assert_eq!(
        engine.reassign_primary(1, 7, 42),
        Err(JournalError::NotInSync)
    );
    assert_eq!(engine.reassign_primary(1, 7, 10), Ok(()));
    assert_eq!(JournalError::NotInSync.kind_name(), "NotInSync");
}

#[test]
fn node_lifecycle_is_tracked() {
    let mut engine = started_engine();
    engine.register_node(10, String::from("node-a:1650"), 100);
    engine.register_node(11, String::from("node-b:1650"), 101);
    let nodes = engine.list_nodes();
    assert_eq!(nodes.len(), 2);
    assert_eq!(nodes[0].health, NodeHealth::Healthy);

    // node 11 keeps its heartbeat fresh, node 10 goes silent
    engine.record_heartbeat(11, 140);
    engine.check_heartbeat_timeouts(150);
    let nodes = engine.list_nodes();
    assert_eq!(nodes.iter().find(|n| n.node_id == 10).unwrap().health, NodeHealth::Suspect);
    assert_eq!(nodes.iter().find(|n| n.node_id == 11).unwrap().health, NodeHealth::Healthy);

    engine.unregister_node(11);
    let nodes = engine.list_nodes();
    assert_eq!(
        nodes.iter().find(|n| n.node_id == 11).unwrap().health,
        NodeHealth::Unregistered
    );

    engine.stop_all_build_index_thread();
    assert!(!engine.index_threads_running);
}
