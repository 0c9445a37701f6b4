use store_system::config::{QuadShardConfig, WorkerDefaultsConfig};
use store_system::error::StoreError;
use store_system::master::{
    both_reads_failed, both_writes_failed, first_write_target, group_by_first, quadkey_region, retry_read_target,
    retry_write_target, score_of, MasterConfig, MasterNode, Replica, WorkerEntry,
};
use store_system::master::{
    quadkey_put_step, replicated_put_step, PutAction, PutEvent, PutState, QuadPutAction, QuadPutEvent, QuadPutPhase,
    QuadPutResult,
};

fn test_worker_defaults() -> WorkerDefaultsConfig {
    WorkerDefaultsConfig {
        kv_ext: ".g3db".to_string(),
        meta_ext: ".bulk".to_string(),
        cache_size: 10000,
        flush_interval_ms: 5,
        heartbeat_interval_secs: 10,
        weight: 1,
        quad_shard: QuadShardConfig {
            base_level: 8,
            split_level: 18,
            data_dir: "quad_data".to_string(),
            data_type: "objects".to_string(),
            kv_ext: ".kv".to_string(),
            meta_ext: ".db".to_string(),
            cache_size: 10000,
            flush_interval_ms: 5,
        },
    }
}

fn test_worker_regions() -> Vec<(String, String)> {
    vec![("worker-0".to_string(), "0".to_string()), ("worker-1".to_string(), "1".to_string())]
}

fn master() -> MasterNode {
    let mut master_config = MasterConfig::default();
    master_config.meta_path = "/tmp/master_test.db".to_string();
    MasterNode::open_with_worker_defaults(master_config, "both", test_worker_defaults(), test_worker_regions(), vec![])
}

fn entry(id: &str, alive: bool, region: &str, hb: i64) -> WorkerEntry {
    WorkerEntry {
        worker_id: id.to_string(),
        address: format!("{}:1", id),
        weight: 1,
        alive,
        last_heartbeat: hb,
        region: region.to_string(),
    }
}

#[test]
fn test_register_returns_config() {
    let mut master = master();
    let payload = master.register_worker("worker-0", "0.0.0.0:50061", 1, 1_700_000_000).unwrap();

    assert_eq!(payload.region, "0");
    assert_eq!(payload.kv_ext, ".g3db");
    assert_eq!(payload.meta_ext, ".bulk");
    assert_eq!(payload.cache_size, 10000);
    assert_eq!(payload.config_version, 1);
}

#[test]
fn test_register_unknown_worker_rejected() {
    let mut master = master();
    let result = master.register_worker("worker-99", "0.0.0.0:50099", 1, 1_700_000_000);
    assert!(result.is_err());
    assert!(master.list_workers(false).is_empty());
}

#[test]
fn register_replaces_same_id_and_heartbeat_marks_alive() {
    let mut m = master();
    m.register_worker("worker-0", "a:1", 1, 100).unwrap();
    m.register_worker("worker-1", "b:1", 2, 100).unwrap();
    m.register_worker("worker-0", "c:1", 3, 150).unwrap();
    let ws = m.list_workers(false);
    assert_eq!(ws.len(), 2);
    assert_eq!(ws[0].worker_id, "worker-0");
    assert_eq!(ws[0].address, "c:1");
    assert_eq!(ws[0].weight, 3);
    assert_eq!(ws[1].region, "1");

    m.cleanup_dead_workers(100 + 31);
    let alive: Vec<String> = m.list_workers(true).into_iter().map(|w| w.worker_id).collect();
    assert_eq!(alive, vec!["worker-0"]);
    assert!(m.heartbeat("worker-1", 200));
    assert!(!m.heartbeat("worker-9", 200));
    assert_eq!(m.list_workers(true).len(), 2);
}

#[test]
fn open_keeps_latest_registry_entry_per_id() {
    let m = MasterNode::open(
        MasterConfig::default(),
        vec![entry("a", true, "0", 1), entry("b", true, "1", 1), entry("a", false, "2", 5)],
    );
    let ws = m.list_workers(false);
    assert_eq!(ws.len(), 2);
    assert_eq!(ws[0].worker_id, "a");
    assert!(!ws[0].alive);
    assert_eq!(ws[0].region, "2");
    assert_eq!(m.protocol(), "both");
    assert_eq!(m.config_version(), 1);
}

#[test]
fn route_picks_highest_seahash_score() {
    let m = MasterNode::open(
        MasterConfig::default(),
        vec![entry("w1", true, "0", 1), entry("w2", true, "1", 1), entry("w3", false, "2", 1), entry("w4", true, "3", 1)],
    );
    for key in ["alpha", "beta", "gamma", "delta", "k-1", ""] {
        let chosen = m.route(key).unwrap();
        let expect = ["w1", "w2", "w4"]
            .iter()
            .max_by_key(|id| seahash::hash(format!("{}\0{}", key, id).as_bytes()))
            .unwrap();
        assert_eq!(&chosen.worker_id, expect);
        assert_eq!(score_of(key, &chosen.worker_id), seahash::hash(format!("{}\0{}", key, chosen.worker_id).as_bytes()));
        let (p, s) = m.route_with_replicas(key).unwrap();
        assert_eq!(p.worker_id, chosen.worker_id);
        let s = s.unwrap();
        assert_ne!(s.worker_id, p.worker_id);
        assert_ne!(s.worker_id, "w3");
    }
}

#[test]
fn route_without_alive_workers_is_refused() {
    let m = MasterNode::open(MasterConfig::default(), vec![entry("w1", false, "0", 1)]);
    assert!(matches!(m.route("k"), Err(StoreError::InvalidArgument(_))));
    assert!(m.route_with_replicas("k").is_err());
    let solo = MasterNode::open(MasterConfig::default(), vec![entry("w1", true, "0", 1)]);
    let (p, s) = solo.route_with_replicas("k").unwrap();
    assert_eq!(p.worker_id, "w1");
    assert!(s.is_none());
}

#[test]
fn route_by_quadkey_uses_first_character() {
    let m = MasterNode::open(
        MasterConfig::default(),
        vec![entry("w0", true, "0", 1), entry("w1", true, "1", 1), entry("w2", false, "2", 1)],
    );
    assert_eq!(m.route_by_quadkey("1230").unwrap().worker_id, "w1");
    assert_eq!(m.route_by_quadkey("").unwrap().worker_id, "w0");
    assert!(m.route_by_quadkey("2").is_err());
    assert_eq!(quadkey_region("3012"), "3");
    assert_eq!(quadkey_region(""), "0");
}

#[test]
fn replica_decisions() {
    assert!(matches!(first_write_target(true, false), Ok(Replica::Primary)));
    assert!(matches!(first_write_target(false, true), Ok(Replica::Secondary)));
    match first_write_target(false, false) {
        Err(StoreError::InvalidArgument(m)) => assert_eq!(m, "主副本不可达且无备副本"),
        _ => panic!("expected a refusal"),
    }
    assert!(matches!(retry_write_target(true, "x"), Ok(Replica::Secondary)));
    match retry_write_target(false, "boom") {
        Err(StoreError::InvalidArgument(m)) => assert_eq!(m, "主副本写入失败且无备副本: boom"),
        _ => panic!("expected a refusal"),
    }
    match both_writes_failed("p", "s") {
        StoreError::InvalidArgument(m) => assert_eq!(m, "副本写入失败(主+备均失败, 主: p, 备: s)"),
        _ => panic!("expected InvalidArgument"),
    }
    assert!(matches!(retry_read_target(true, "x"), Ok(Replica::Secondary)));
    match retry_read_target(false, "e") {
        Err(StoreError::InvalidArgument(m)) => assert_eq!(m, "Worker 读取失败(无备副本): e"),
        _ => panic!("expected a refusal"),
    }
    match both_reads_failed("e") {
        StoreError::InvalidArgument(m) => assert_eq!(m, "Worker 读取失败(主+备均失败): e"),
        _ => panic!("expected InvalidArgument"),
    }
}

#[test]
fn grouping_keeps_first_appearance_order() {
    let g = group_by_first(vec![
        ("b".to_string(), 1),
        ("a".to_string(), 2),
        ("b".to_string(), 3),
        ("c".to_string(), 4),
        ("a".to_string(), 5),
    ]);
    assert_eq!(
        g,
        vec![("b".to_string(), vec![1, 3]), ("a".to_string(), vec![2, 5]), ("c".to_string(), vec![4])]
    );
}

#[test]
fn config_version_bumps() {
    let mut m = master();
    assert_eq!(m.bump_config_version(), 2);
    assert_eq!(m.config_version(), 2);
    let p = m.register_worker("worker-1", "x:1", 1, 0).unwrap();
    assert_eq!(p.config_version, 2);
    assert_eq!(m.get_max_message_size(), 268435456);
}

#[test]
fn route_stays_put_when_another_worker_fails() {
    let ids = ["w-a", "w-b", "w-c", "w-d"];
    let cfg = || {
        let mut c = MasterConfig::default();
        c.heartbeat_timeout_secs = 30;
        c
    };
    for key in ["alpha", "beta", "gamma", "delta", "epsilon"] {
        let all: Vec<WorkerEntry> = ids.iter().map(|id| entry(id, true, "0", 1000)).collect();
        let before = MasterNode::open(cfg(), all).route(key).unwrap().worker_id;
        let victim = ids.iter().find(|id| **id != before.as_str()).unwrap();
        let entries: Vec<WorkerEntry> =
            ids.iter().map(|id| entry(id, true, "0", if id == victim { 0 } else { 1000 })).collect();
        let mut m = MasterNode::open(cfg(), entries);
        m.cleanup_dead_workers(1010);
        assert!(!m.list_workers(false).iter().find(|w| w.worker_id == *victim).unwrap().alive);
        assert_eq!(m.route(key).unwrap().worker_id, before);
    }
}

#[test]
fn worker_dies_only_after_the_heartbeat_timeout() {
    let mut c = MasterConfig::default();
    c.heartbeat_timeout_secs = 30;
    let mut m = MasterNode::open(c, vec![entry("w-a", true, "0", 1000)]);
    m.cleanup_dead_workers(1030);
    assert!(m.list_workers(false)[0].alive);
    m.cleanup_dead_workers(1031);
    assert!(!m.list_workers(false)[0].alive);
    assert!(m.route("k").is_err());
    assert!(m.heartbeat("w-a", 1040));
    assert_eq!(m.route("k").unwrap().worker_id, "w-a");
}

fn step(s: PutState, ev: PutEvent) -> (PutState, PutAction) {
    replicated_put_step(s, ev)
}

#[test]
fn replicated_put_writes_the_primary_then_the_secondary_in_the_background() {
    let s = PutState::new("k".to_string(), 3, None, None, "2024-01-01T00:00:00+00:00".to_string());
    let (s, a) = step(s, PutEvent::Routed(Ok(("w1".to_string(), true))));
    assert!(matches!(a, PutAction::Connect(Replica::Primary)));
    let (s, a) = step(s, PutEvent::Connected(Replica::Primary, Ok(())));
    assert!(matches!(a, PutAction::Send(Replica::Primary)));
    let (s, a) = step(s, PutEvent::Written(Replica::Primary, Ok(())));
    assert!(matches!(a, PutAction::SpawnAsync(Replica::Secondary)));
    let (_, a) = step(s, PutEvent::Spawned);
    match a {
        PutAction::Done(Ok(m)) => {
            assert_eq!(m.key, "k");
            assert_eq!(m.size, 3);
            assert_eq!(m.storage_node.as_deref(), Some("w1"));
        }
        other => panic!("unexpected {:?}", other),
    }
}

#[test]
fn replicated_put_falls_back_and_reports_both_failures() {
    let s = PutState::new("k".to_string(), 1, None, None, "t".to_string());
    let (s, _) = step(s, PutEvent::Routed(Ok(("w1".to_string(), true))));
    let (s, a) = step(s, PutEvent::Connected(Replica::Primary, Err(StoreError::InvalidArgument("down".to_string()))));
    assert!(matches!(a, PutAction::Connect(Replica::Secondary)));
    let (s, a) = step(s, PutEvent::Connected(Replica::Secondary, Ok(())));
    assert!(matches!(a, PutAction::Send(Replica::Secondary)));
    let (s2, a) = step(s, PutEvent::Written(Replica::Secondary, Ok(())));
    assert!(matches!(a, PutAction::SpawnAsync(Replica::Primary)));
    let (_, a) = step(s2, PutEvent::Spawned);
    assert!(matches!(a, PutAction::Done(Ok(_))));

    let s = PutState::new("k".to_string(), 1, None, None, "t".to_string());
    let (s, _) = step(s, PutEvent::Routed(Ok(("w1".to_string(), true))));
    let (s, _) = step(s, PutEvent::Connected(Replica::Primary, Ok(())));
    let (s, a) = step(s, PutEvent::Written(Replica::Primary, Err("e1".to_string())));
    assert!(matches!(a, PutAction::Connect(Replica::Secondary)));
    let (s, _) = step(s, PutEvent::Connected(Replica::Secondary, Ok(())));
    let (_, a) = step(s, PutEvent::Written(Replica::Secondary, Err("e2".to_string())));
    match a {
        PutAction::Done(Err(StoreError::InvalidArgument(m))) => assert_eq!(m, "副本写入失败(主+备均失败, 主: e1, 备: e2)"),
        other => panic!("unexpected {:?}", other),
    }

    let s = PutState::new("k".to_string(), 1, None, None, "t".to_string());
    let (s, _) = step(s, PutEvent::Routed(Ok(("w1".to_string(), false))));
    let (_, a) = step(s, PutEvent::Connected(Replica::Primary, Err(StoreError::InvalidArgument("down".to_string()))));
    match a {
        PutAction::Done(Err(StoreError::InvalidArgument(m))) => assert_eq!(m, "主副本不可达且无备副本"),
        other => panic!("unexpected {:?}", other),
    }
}

#[test]
fn routing_without_alive_workers_is_an_invalid_argument() {
    let m = MasterNode::open(MasterConfig::default(), vec![entry("w-a", false, "0", 1)]);
    assert!(matches!(m.route("k"), Err(StoreError::InvalidArgument(ref s)) if s == "没有可用的 Worker 节点"));
    assert!(matches!(m.route_by_quadkey("1203"), Err(StoreError::InvalidArgument(ref s)) if s == "quadkey 区域 '1' 无可用 Worker"));
}

#[test]
fn quadkey_put_falls_back_to_the_pending_buffer() {
    let (p, a) = quadkey_put_step(QuadPutPhase::Routing, QuadPutEvent::Routed(false));
    assert!(matches!(a, QuadPutAction::BufferLocally));
    let (_, a) = quadkey_put_step(p, QuadPutEvent::Buffered(Ok(())));
    assert!(matches!(a, QuadPutAction::Done(Ok(QuadPutResult::Buffered))));

    let (p, _) = quadkey_put_step(QuadPutPhase::Routing, QuadPutEvent::Routed(true));
    let (p, a) = quadkey_put_step(p, QuadPutEvent::Connected(Ok(())));
    assert!(matches!(a, QuadPutAction::Send));
    let (p, a) = quadkey_put_step(p, QuadPutEvent::Written(Err("busy".to_string())));
    assert!(matches!(a, QuadPutAction::BufferLocally));
    let (_, a) = quadkey_put_step(p, QuadPutEvent::Buffered(Err(StoreError::IoError("disk".to_string()))));
    match a {
        QuadPutAction::Done(Err(m)) => assert_eq!(m, "PendingStore put 失败: IO error: disk"),
        other => panic!("unexpected {:?}", other),
    }

    let (p, _) = quadkey_put_step(QuadPutPhase::Routing, QuadPutEvent::Routed(true));
    let (_, a) = quadkey_put_step(p, QuadPutEvent::Connected(Err(StoreError::InvalidArgument("down".to_string()))));
    assert!(matches!(a, QuadPutAction::Done(Err(ref m)) if m == "Invalid argument: down"));
    let (p, _) = quadkey_put_step(QuadPutPhase::Routing, QuadPutEvent::Routed(true));
    let (p, _) = quadkey_put_step(p, QuadPutEvent::Connected(Ok(())));
    let (_, a) = quadkey_put_step(p, QuadPutEvent::Written(Ok(())));
    assert!(matches!(a, QuadPutAction::Done(Ok(QuadPutResult::OnWorker))));
}
