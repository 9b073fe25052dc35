use amazon_rose_forest::server::api::{distance_metric_to_string, parse_distance_metric, CreateShardRequest, ErrorResponse};
use amazon_rose_forest::server::config::ServerConfig;
use amazon_rose_forest::sharding::manager::{ShardError, ShardManager, ShardStatus};
use amazon_rose_forest::sharding::migration::MigrationTask;
use amazon_rose_forest::sharding::vector_index::{metric_from_name, needs_full_scan, DistanceMetric, HilbertBuckets};

#[test]
fn metric_names_parse_in_any_case() {
    assert_eq!(parse_distance_metric("euclidean"), Ok(DistanceMetric::Euclidean));
    assert_eq!(parse_distance_metric("COSINE"), Ok(DistanceMetric::Cosine));
    assert_eq!(parse_distance_metric("Manhattan"), Ok(DistanceMetric::Manhattan));
    assert_eq!(parse_distance_metric("hamming"), Ok(DistanceMetric::Hamming));
    assert_eq!(
        parse_distance_metric("chebyshev"),
        Err("Unknown distance metric: chebyshev".to_string())
    );
    assert_eq!(metric_from_name("HAMMING"), Some(DistanceMetric::Hamming));
    assert_eq!(metric_from_name("ham"), None);
}

#[test]
fn metric_names_roundtrip() {
    for m in [DistanceMetric::Euclidean, DistanceMetric::Cosine, DistanceMetric::Manhattan, DistanceMetric::Hamming] {
        assert_eq!(parse_distance_metric(&distance_metric_to_string(m)), Ok(m));
        assert!(m.is_lower_better());
    }
    assert_eq!(distance_metric_to_string(DistanceMetric::Cosine), "cosine");
}

#[test]
fn api_bodies_and_server_defaults() {
    let r = CreateShardRequest { name: "s".to_string() };
    assert_eq!(r.name, "s");
    let e = ErrorResponse { error: "bad".to_string() };
    assert_eq!(e.error, "bad");
    let c = ServerConfig::default();
    assert_eq!(c.address, "127.0.0.1");
    assert_eq!(c.port, 9000);
    assert!(c.enable_metrics);
    assert_eq!(c.metrics_path, "/metrics");
    assert!(c.enable_api);
    assert_eq!(c.api_path, "/api");
}

#[test]
fn buckets_group_ids_by_position() {
    let mut b = HilbertBuckets::new();
    b.add(10, 1);
    b.add(10, 2);
    b.add(12, 3);
    assert!(b.contains(10));
    assert_eq!(b.ids_at(10), vec![1, 2]);
    assert_eq!(b.bucket_count(), 2);
    let mut sizes = b.bucket_sizes();
    sizes.sort();
    assert_eq!(sizes, vec![1, 2]);
    b.remove(10, 1);
    assert_eq!(b.ids_at(10), vec![2]);
    b.remove(10, 2);
    assert!(!b.contains(10));
    assert_eq!(b.ids_at(10), Vec::<u128>::new());
    b.remove(99, 1);
    assert_eq!(b.bucket_count(), 1);
}

#[test]
fn nearby_positions_follow_the_search_window() {
    let mut b = HilbertBuckets::new();
    for p in [0u64, 2, 3, 5, 8, 9, 20] {
        b.add(p, p as u128);
    }
    assert_eq!(b.nearby_positions(3), vec![3, 2, 5, 0, 8]);
    assert_eq!(b.nearby_positions(0), vec![0, 2, 3, 5]);
    assert_eq!(b.nearby_positions(100), Vec::<u64>::new());
}

#[test]
fn shards_are_created_on_this_node() {
    let mut m = ShardManager::new_with("node-a".to_string());
    let id = m.create_shard_with(5, "first", 100);
    assert_eq!(id, 5);
    let s = m.get_shard(5).unwrap();
    assert_eq!(s.name, "first");
    assert_eq!(s.status, ShardStatus::Active);
    assert_eq!(s.node_id, "node-a");
    assert_eq!(s.vector_count, 0);
    assert_eq!(m.get_shards().len(), 1);
    assert_eq!(m.shards_on_node("node-a"), vec![5]);
    assert!(matches!(m.get_shard(6), Err(ShardError::ShardNotFound(6))));
    m.record_vector_count(5, 42, 200);
    assert_eq!(m.get_shard(5).unwrap().vector_count, 42);
    assert_eq!(m.update_shard_status_at(5, ShardStatus::ReadOnly, 300), Ok(()));
    assert_eq!(m.get_shard(5).unwrap().status, ShardStatus::ReadOnly);
    assert_eq!(m.update_shard_status_at(7, ShardStatus::ReadOnly, 300), Err(ShardError::ShardNotFound(7)));
}

#[test]
fn migration_moves_shard_to_target() {
    let mut m = ShardManager::new_with("node-a".to_string());
    m.create_shard_with(5, "first", 100);
    m.create_shard_with(6, "second", 100);
    assert_eq!(m.start_migration_with(9, "node-b", 1, 150), Err(ShardError::ShardNotFound(9)));
    let mid = m.start_migration_with(5, "node-b", 1, 200).unwrap();
    assert_eq!(m.get_shard(5).unwrap().status, ShardStatus::Draining);
    assert_eq!(m.get_migration_status(mid), Ok((false, 0)));
    let mut p = 0u8;
    while p <= 100 {
        m.set_migration_progress(mid, p, 300);
        p += 10;
    }
    assert_eq!(m.get_migration_status(mid), Ok((false, 100)));
    assert_eq!(m.complete_migration_at(mid, 400), Ok(()));
    assert_eq!(m.get_migration_status(mid), Ok((true, 100)));
    let s = m.get_shard(5).unwrap();
    assert_eq!(s.node_id, "node-b");
    assert_eq!(s.status, ShardStatus::Active);
    assert_eq!(m.shards_on_node("node-b"), vec![5]);
    assert_eq!(m.shards_on_node("node-a"), vec![6]);
    assert_eq!(m.complete_migration_at(77, 500), Err(ShardError::MigrationNotFound(77)));
    assert_eq!(m.get_migration_status(77), Err(ShardError::MigrationNotFound(77)));
}

#[test]
fn new_manager_has_generated_node_name() {
    let mut m = ShardManager::new();
    let id = m.create_shard("x");
    let node = m.get_shard(id).unwrap().node_id.clone();
    assert!(node.starts_with("node-"));
    assert_eq!(node.len(), 41);
    let uuid_part: Vec<char> = node[5..].chars().collect();
    for (i, c) in uuid_part.iter().enumerate() {
        if i == 8 || i == 13 || i == 18 || i == 23 {
            assert_eq!(*c, '-');
        } else {
            assert!(c.is_ascii_hexdigit() && !c.is_ascii_uppercase());
        }
    }
    assert_eq!(uuid_part[14], '4');
}

#[test]
fn migration_task_starts_empty() {
    let t = MigrationTask::new(1, 2, "a".to_string(), "b".to_string(), 7);
    assert!(!t.completed);
    assert_eq!(t.progress, 0);
    assert_eq!(t.created_at, 7);
    assert_eq!(t.updated_at, 7);
}

#[test]
fn full_scan_when_few_candidates() {
    assert!(needs_full_scan(3, 1, 10));
    assert!(!needs_full_scan(4, 1, 10));
    assert!(!needs_full_scan(3, 1, 6));
    assert!(needs_full_scan(0, 1, 2));
    assert!(!needs_full_scan(0, 0, 100));
    assert!(needs_full_scan(7, usize::MAX, usize::MAX));
}
