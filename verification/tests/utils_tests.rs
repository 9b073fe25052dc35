use amazon_rose_forest::utils::config::Config;
use amazon_rose_forest::utils::errors::{DatabaseError, QueryError};

#[test]
fn default_config_values() {
    let c = Config::default_with(0x0123_4567_89ab_4def_8123_4567_89ab_cdefu128);
    assert_eq!(c.node.id, "node-01234567-89ab-4def-8123-456789abcdef");
    assert_eq!(c.node.host, "127.0.0.1");
    assert_eq!(c.node.port, 9000);
    assert_eq!(c.node.data_dir, "./data");
    assert!(c.network.peers.is_empty());
    assert_eq!(c.network.timeout_ms, 5000);
    assert_eq!(c.network.retry_interval_ms, 1000);
    assert_eq!(c.network.max_retries, 3);
    assert_eq!(c.storage.engine, "memory");
    assert_eq!(c.storage.path, "./data/vectors");
    assert_eq!(c.storage.cache_size_mb, 1024);
    assert_eq!(c.sharding.num_shards, 16);
    assert_eq!(c.sharding.replication_factor, 3);
    assert!(c.sharding.auto_rebalance);
}

#[test]
fn fresh_default_config_has_random_node_name() {
    let a = Config::default();
    let b = Config::default();
    assert!(a.node.id.starts_with("node-"));
    assert_eq!(a.node.id.len(), 41);
    assert_ne!(a.node.id, b.node.id);
}

#[test]
fn query_error_wraps_database_error() {
    match QueryError::from_database(DatabaseError::Timeout(30)) {
        QueryError::DatabaseError(DatabaseError::Timeout(ms)) => assert_eq!(ms, 30),
        other => panic!("unexpected {:?}", other),
    }
}
