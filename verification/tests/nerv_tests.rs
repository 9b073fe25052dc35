use amazon_rose_forest::holochain::semantic_crdt::VersionVector;
use amazon_rose_forest::nerv::replication::{ReplicationError, ReplicationManager, ReplicationStatus};
use amazon_rose_forest::nerv::synchrony::SynchronyManager;
use amazon_rose_forest::nerv::versioning::{VersionError, VersionManager};

#[test]
fn versions_grow_and_keep_history() {
    let mut m: VersionManager<u32> = VersionManager::new();
    let v1 = m.create_object_with(7, 10, 1_000);
    assert_eq!(v1.version, 1);
    let v2 = m.update_object_at(7, 20, 2_000).unwrap();
    assert_eq!(v2.version, 2);
    assert_eq!(v2.data, 20);
    assert_eq!(m.get_latest(7).unwrap().data, 20);
    assert_eq!(m.get_version(7, 1).unwrap().data, 10);
    assert_eq!(m.get_history(7).unwrap().len(), 2);
    match m.get_version(7, 3) {
        Err(VersionError::VersionNotFound { id, version }) => {
            assert_eq!(id, 7);
            assert_eq!(version, 3);
        },
        other => panic!("unexpected {:?}", other),
    }
    assert!(matches!(m.update_object_at(8, 1, 3_000), Err(VersionError::ObjectNotFound(8))));
    m.delete_object(7).unwrap();
    assert!(matches!(m.get_latest(7), Err(VersionError::ObjectNotFound(7))));
    assert!(matches!(m.delete_object(7), Err(VersionError::ObjectNotFound(7))));
}

#[test]
fn local_clock_counts_events() {
    let mut s = SynchronyManager::new("a");
    assert_eq!(s.get_current_clock().get("a"), 0);
    assert_eq!(s.increment_local_clock(), 1);
    assert_eq!(s.increment_local_clock(), 2);
    assert_eq!(s.get_current_clock().get("a"), 2);
}

#[test]
fn merging_a_remote_clock_takes_maxima() {
    let mut s = SynchronyManager::new("a");
    s.increment_local_clock();
    let mut remote = VersionVector::new();
    remote.increment("b");
    remote.increment("b");
    remote.increment("b");
    s.merge_remote_clock_at("b", &remote, 5_000);
    let clock = s.get_current_clock();
    assert_eq!(clock.get("a"), 1);
    assert_eq!(clock.get("b"), 3);
}

#[test]
fn causal_readiness_ignores_own_counter() {
    let mut s = SynchronyManager::new("a");
    let mut event = VersionVector::new();
    event.increment("a");
    event.increment("a");
    assert!(s.is_causally_ready(&event));
    event.increment("b");
    assert!(!s.is_causally_ready(&event));
    let mut remote = VersionVector::new();
    remote.increment("b");
    s.merge_remote_clock_at("b", &remote, 0);
    assert!(s.is_causally_ready(&event));
}

#[test]
fn sync_status_uses_five_minute_threshold() {
    let mut s = SynchronyManager::new("a");
    s.add_peer("b");
    s.add_peer("c");
    s.add_peer("d");
    let remote = VersionVector::new();
    let now: i64 = 1_700_000_000_000;
    s.merge_remote_clock_at("b", &remote, now - 60_000);
    s.merge_remote_clock_at("c", &remote, now - 300_000);
    let status = s.get_sync_status_at(now);
    assert_eq!(status.len(), 3);
    assert_eq!(status.get(&"b".to_string()), Some((now - 60_000, true)));
    assert_eq!(status.get(&"c".to_string()), Some((now - 300_000, false)));
    assert_eq!(status.get(&"d".to_string()), Some((now - 31_536_000_000, false)));
    s.remove_peer("d");
    assert_eq!(s.get_sync_status_at(now).len(), 2);
}

#[test]
fn replication_requires_a_known_peer() {
    let mut m = ReplicationManager::new("n1");
    let r = m.start_replication_with(5, "n2", 9, 100);
    assert_eq!(r, Err(ReplicationError::UnknownPeer("n2".to_string())));
    m.add_peer("n2");
    assert_eq!(m.start_replication_with(5, "n2", 9, 100), Ok(9));
    assert_eq!(m.get_task_status(9), Ok((ReplicationStatus::Pending, 0)));
    assert_eq!(m.get_task_status(10), Err(ReplicationError::TaskNotFound(10)));
}

#[test]
fn replication_progresses_to_completion() {
    let mut m = ReplicationManager::new("n1");
    m.add_peer("n2");
    let id = m.start_replication_with(5, "n2", 9, 100).unwrap();
    m.mark_in_progress(id, 200).unwrap();
    let mut p = 0u8;
    while p <= 100 {
        m.set_progress(id, p, 300);
        p += 10;
    }
    assert_eq!(m.get_task_status(id), Ok((ReplicationStatus::InProgress, 100)));
    m.mark_completed(id, 400);
    assert_eq!(m.get_task_status(id), Ok((ReplicationStatus::Completed, 100)));
    assert_eq!(m.cancel_replication_at(id, 500), Err(ReplicationError::CannotCancel(ReplicationStatus::Completed)));
}

#[test]
fn cancelled_replication_cannot_be_cancelled_again() {
    let mut m = ReplicationManager::new("n1");
    m.add_peer("n2");
    let id = m.start_replication(5, "n2").unwrap();
    assert_eq!(m.cancel_replication(id), Ok(()));
    assert_eq!(m.get_task_status(id).unwrap().0, ReplicationStatus::Failed);
    assert_eq!(m.cancel_replication(id), Err(ReplicationError::CannotCancel(ReplicationStatus::Failed)));
    assert_eq!(m.cancel_replication(12345), Err(ReplicationError::TaskNotFound(12345)));
    let copy = m.clone();
    assert_eq!(copy.get_task_status(id), Err(ReplicationError::TaskNotFound(id)));
}
