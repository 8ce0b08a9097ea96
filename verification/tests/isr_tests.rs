use journal_server::errors::JournalError;
use journal_server::isr::IsrState;

fn acked_of(isr: &IsrState, node: u64) -> u64 {
    isr.replicas.iter().find(|r| r.node_id == node).unwrap().acked_offset
}

fn in_sync(isr: &IsrState, node: u64) -> bool {
    isr.replicas.iter().find(|r| r.node_id == node).map(|r| r.in_sync).unwrap_or(false)
}

#[test]
fn ack_promotes_only_at_active_end() {
    let mut isr = IsrState::new(1, 7, 10);
    isr.set_active_end(100);
    // a new replica behind the end joins but is not in sync
    isr.on_replica_ack(11, 40);
    assert!(!in_sync(&isr, 11));
    assert_eq!(acked_of(&isr, 11), 40);
    // catching up to the end promotes it
    isr.on_replica_ack(11, 100);
    assert!(in_sync(&isr, 11));
}

#[test]
fn acked_offset_only_grows() {
    let mut isr = IsrState::new(1, 7, 10);
    isr.on_replica_ack(11, 50);
    assert_eq!(acked_of(&isr, 11), 50);
    // a stale acknowledgement never moves the offset back
    isr.on_replica_ack(11, 20);
    assert_eq!(acked_of(&isr, 11), 50);
    isr.on_replica_ack(11, 70);
    assert_eq!(acked_of(&isr, 11), 70);
}

#[test]
fn advancing_end_demotes_laggards_but_not_primary() {
    let mut isr = IsrState::new(1, 7, 10);
    isr.on_replica_ack(11, 0);
    assert!(in_sync(&isr, 11));
    isr.set_active_end(64);
    // the replica fell behind the new end and left the in-sync set
    assert!(!in_sync(&isr, 11));
    // the primary wrote those bytes and stays in sync
    assert!(in_sync(&isr, 10));
    assert_eq!(acked_of(&isr, 10), 64);
}

#[test]
fn reassign_primary_requires_in_sync() {
    let mut isr = IsrState::new(1, 7, 10);
    isr.on_replica_ack(11, 0);
    isr.set_active_end(32);
    // node 11 is behind: promotion would lose data
    assert_eq!(isr.reassign_primary(11), Err(JournalError::NotInSync));
    assert_eq!(isr.primary, 10);
    // an unknown node is not in sync either
    assert_eq!(isr.reassign_primary(99), Err(JournalError::NotInSync));
    // a caught-up replica always can take over
    isr.on_replica_ack(11, 32);
    assert_eq!(isr.reassign_primary(11), Ok(()));
    assert_eq!(isr.primary, 11);
}

#[test]
fn heartbeat_timeout_demotes_and_raises_alarm() {
    let mut isr = IsrState::new(1, 7, 10);
    isr.on_replica_ack(11, 0);
    isr.on_replica_ack(12, 0);
    assert_eq!(isr.count_in_sync(), 3);
    isr.on_heartbeat_timeout(11, 2);
    assert!(!in_sync(&isr, 11));
    assert!(!isr.under_replicated);
    isr.on_heartbeat_timeout(12, 2);
    // only the primary is left: below the minimum of two
    assert_eq!(isr.count_in_sync(), 1);
    assert!(isr.under_replicated);
    // the primary is never demoted by a timeout
    isr.on_heartbeat_timeout(10, 2);
    assert!(in_sync(&isr, 10));
}
