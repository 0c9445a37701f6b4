use store_system::config::QuadShardConfig;
use store_system::error::StoreError;
use store_system::quad_shard::QuadShardManager;

fn test_config() -> QuadShardConfig {
    QuadShardConfig {
        base_level: 8,
        split_level: 18,
        data_dir: "/tmp/quad_test".to_string(),
        data_type: "objects".to_string(),
        kv_ext: ".kv".to_string(),
        meta_ext: ".db".to_string(),
        cache_size: 100,
        flush_interval_ms: 5,
    }
}

#[test]
fn test_route_level_leq_base() {
    let mgr = QuadShardManager::new(test_config());
    let (db_name, kv_path, _meta_path) = mgr.route_paths("v1", "30211", 5);
    assert_eq!(db_name, "base");
    assert!(kv_path.contains("v1/base.kv"));
    assert!(!kv_path.contains("/5/"));
}

#[test]
fn test_route_level_mid() {
    let mgr = QuadShardManager::new(test_config());
    let (db_name, kv_path, _meta_path) = mgr.route_paths("v1", "302112345678", 12);
    assert_eq!(db_name, "3021");
    assert!(kv_path.contains("v1/12/3021.kv"));
}

#[test]
fn test_route_level_high() {
    let mgr = QuadShardManager::new(test_config());
    let (db_name, kv_path, _meta_path) = mgr.route_paths("v1", "30211234567890123456", 20);
    assert_eq!(db_name, "30211234");
    assert!(kv_path.contains("v1/20/30211234.kv"));
}

#[test]
fn route_paths_exact() {
    let mgr = QuadShardManager::new(test_config());
    let (n, kv, meta) = mgr.route_paths("v1", "302112345678", 12);
    assert_eq!(n, "3021");
    assert_eq!(kv, "/tmp/quad_test/v1/12/3021.kv");
    assert_eq!(meta, "/tmp/quad_test/v1/12/3021.db");
    let (n, kv, _) = mgr.route_paths("v2", "99999", 3);
    assert_eq!(n, "base");
    assert_eq!(kv, "/tmp/quad_test/v2/base.kv");
    // a split-level boundary: level 18 takes eight characters
    let (n, _, _) = mgr.route_paths("v1", "0123456789", 18);
    assert_eq!(n, "01234567");
    // a short quadkey gives a short name
    let (n, _, _) = mgr.route_paths("v1", "01", 12);
    assert_eq!(n, "01");
}

#[test]
fn shard_name_refuses_short_quadkeys() {
    let mgr = QuadShardManager::new(test_config());
    assert_eq!(mgr.shard_name("30211", 5).unwrap(), "base");
    assert_eq!(mgr.shard_name("302112345678", 12).unwrap(), "3021");
    assert!(matches!(mgr.shard_name("302", 12), Err(StoreError::InvalidArgument(_))));
    assert!(matches!(mgr.shard_name("3021123", 20), Err(StoreError::InvalidArgument(_))));
    assert_eq!(mgr.shard_name("30211234", 20).unwrap(), "30211234");
    assert_eq!(mgr.config().data_dir, "/tmp/quad_test");
}
