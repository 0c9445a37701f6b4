use std::hash::{Hash, Hasher};
use store_system::api::{
    entries_since, health_status, list_params, log_entry_response, log_query_from_params, only_alive_param, LogQueryParams,
};
use store_system::config::{AppConfig, MasterConfig as FileMasterConfig, QuadShardConfig, WorkerDefaultsConfig};
use store_system::error::StoreError;
use store_system::log_intake::{
    batch_stored, invalid_json_reply, plan_log_message, single_stored, LogIntake, ReceivedLogEntry, ReceivedLogMessage,
};
use store_system::logger::{LogCategory, LogEntry, LogLevel};
use store_system::meta::ObjectMeta;
use store_system::meta_stats::{delete_stats_changes, put_stats_changes, size_range_query, StatsChange};
use store_system::pending::{region_paths, status_query};
use store_system::startup::{
    choose_mode, derive_master_ws_addr, key_to_quadkey, listen_port, log_store_path, master_http_addr, parse_cli, parse_u16,
    register_retry_delay_ms, serves_http, serves_ws, side_ports, trim_end_matches, worker_db_paths, RunMode,
};
use store_system::text::{concat2, concat3, decimal_string, join_path, starts_with, str_eq, trim_start_matches};
use store_system::wire::{object_meta_from_wire, object_meta_to_wire, tags_from_wire, WireMeta};
use store_system::worker::{WorkerConfig, WriteStats};

#[test]
fn master_addresses() {
    assert_eq!(derive_master_ws_addr("http://127.0.0.1:50051"), "127.0.0.1:50053");
    assert_eq!(derive_master_ws_addr("https://host:1"), "host:50053");
    assert_eq!(derive_master_ws_addr("10.0.0.2"), "10.0.0.2:50053");
    assert_eq!(master_http_addr("127.0.0.1:50051"), "http://127.0.0.1:50051");
    assert_eq!(master_http_addr("https://x"), "https://x");
}

#[test]
fn plain_keys_get_a_region_quadkey() {
    for key in ["a", "photo.png", ""] {
        let mut h = std::collections::hash_map::DefaultHasher::new();
        key.hash(&mut h);
        assert_eq!(key_to_quadkey(key), format!("000{}", h.finish() % 4));
    }
}

#[test]
fn command_line() {
    let args = |v: &[&str]| v.iter().map(|s| s.to_string()).collect::<Vec<_>>();
    let c = parse_cli(&args(&["prog", "--config", "x.yaml", "worker"]));
    assert_eq!(c.config_path, "x.yaml");
    assert_eq!(c.mode.as_deref(), Some("worker"));
    let c = parse_cli(&args(&["prog"]));
    assert_eq!(c.config_path, "master.yaml");
    assert_eq!(c.mode, None);
    let c = parse_cli(&args(&["prog", "master", "--verbose", "standalone", "--config"]));
    assert_eq!(c.config_path, "master.yaml");
    assert_eq!(c.mode.as_deref(), Some("standalone"));
    assert_eq!(choose_mode(&None, "worker"), RunMode::Worker);
    assert_eq!(choose_mode(&Some("standalone".to_string()), "worker"), RunMode::Standalone);
    assert_eq!(choose_mode(&Some("bogus".to_string()), "master"), RunMode::Usage);
    assert_eq!(choose_mode(&None, "master"), RunMode::Master);
}

#[test]
fn startup_numbers_and_paths() {
    assert_eq!(register_retry_delay_ms(0), Some(1000));
    assert_eq!(register_retry_delay_ms(8), Some(9000));
    assert_eq!(register_retry_delay_ms(9), None);
    assert_eq!(worker_db_paths("d", ".g3db", ".bulk"), ("d/kv.g3db".to_string(), "d/meta.bulk".to_string()));
    assert!(serves_ws("ws") && serves_ws("both") && !serves_ws("grpc"));
    assert!(serves_http("restful") && serves_http("both") && !serves_http("ws"));
    assert_eq!(trim_end_matches("a.db.db", ".db"), "a");
    assert_eq!(log_store_path("master_data/master.db"), "master_data/master_logs.db");
    assert_eq!(log_store_path("m"), "m_logs.db");
    assert_eq!(listen_port("0.0.0.0:50061"), 50061);
    assert_eq!(listen_port("0.0.0.0:7000"), 7000);
    assert_eq!(listen_port("[::1]:8080"), 8080);
    assert_eq!(listen_port("nohost"), 50061);
    assert_eq!(listen_port("h:99999"), 50061);
    assert_eq!(side_ports(50061), (51061, 52061));
}

#[test]
fn u16_parsing_matches_std() {
    for s in ["", "0", "65535", "65536", "+7", "+", "-1", "12a", "007", "99999999999999999999", " 1"] {
        assert_eq!(parse_u16(s), s.parse::<u16>().ok(), "input {:?}", s);
    }
}

fn wire(created: &str, tags: &str) -> WireMeta {
    WireMeta {
        key: "k".to_string(),
        size: 3,
        created_at: created.to_string(),
        updated_at: "2024-05-01T10:00:00Z".to_string(),
        content_type: String::new(),
        tags: tags.to_string(),
    }
}

#[test]
fn wire_metadata_round_trip() {
    let m = object_meta_from_wire(&wire("2024-05-01T12:00:00+02:00", "{\"b\": 1, \"a\": [1, 2]}")).unwrap();
    assert_eq!(m.created_at, "2024-05-01T10:00:00+00:00");
    assert_eq!(m.updated_at, "2024-05-01T10:00:00+00:00");
    assert_eq!(m.content_type, None);
    assert_eq!(m.tags.as_deref(), Some("{\"a\":[1,2],\"b\":1}"));
    let w = object_meta_to_wire(&m);
    assert_eq!(w.content_type, "");
    assert_eq!(w.tags, "{\"a\":[1,2],\"b\":1}");
    assert_eq!(w.created_at, m.created_at);
    match object_meta_from_wire(&wire("yesterday", "")) {
        Err(StoreError::InvalidArgument(msg)) => assert!(msg.starts_with("时间解析失败: ")),
        other => panic!("unexpected {:?}", other),
    }
    match object_meta_from_wire(&wire("2024-05-01T10:00:00Z", "{oops")) {
        Err(StoreError::InvalidArgument(msg)) => assert!(msg.starts_with("Tags 解析失败: ")),
        other => panic!("unexpected {:?}", other),
    }
    assert_eq!(tags_from_wire(""), Ok(None));
    assert_eq!(tags_from_wire(" [ 1 ,2 ] "), Ok(Some("[1,2]".to_string())));
}

fn log_entry(id: i64, msg: &str) -> LogEntry {
    LogEntry {
        id,
        worker_id: "w".to_string(),
        level: LogLevel::Warn,
        category: LogCategory::Custom("Ops".to_string()),
        message: msg.to_string(),
        detail_json: None,
        timestamp: "2024-01-01T00:00:00+00:00".to_string(),
        acknowledged: false,
    }
}

#[test]
fn admin_api_helpers() {
    assert_eq!(list_params(&None, None), (String::new(), 100));
    assert_eq!(list_params(&Some("p/".to_string()), Some(5)), ("p/".to_string(), 5));
    assert!(only_alive_param(Some("true")));
    assert!(!only_alive_param(Some("1")));
    assert!(!only_alive_param(None));
    assert_eq!(health_status(1), "healthy");
    assert_eq!(health_status(0), "degraded");
    let r = log_entry_response(&log_entry(3, "m"));
    assert_eq!(r.level, "warn");
    assert_eq!(r.category, "Ops");
    let (sent, last) = entries_since(&vec![log_entry(1, "a"), log_entry(5, "b"), log_entry(3, "c")], 2);
    assert_eq!(sent.iter().map(|e| e.message.as_str()).collect::<Vec<_>>(), vec!["b", "c"]);
    assert_eq!(last, 5);
    let (sent, last) = entries_since(&vec![log_entry(1, "a")], 4);
    assert!(sent.is_empty());
    assert_eq!(last, 4);
}

#[test]
fn log_query_parameters() {
    let q = log_query_from_params(&LogQueryParams {
        worker_id: Some("w1".to_string()),
        level: Some("ERROR".to_string()),
        category: Some("Network".to_string()),
        keyword: None,
        unread_only: None,
        start_time: Some("2024-01-01T01:00:00+01:00".to_string()),
        end_time: Some("not a time".to_string()),
        limit: None,
        offset: Some(4),
    });
    assert_eq!(q.level, Some(LogLevel::Error));
    assert_eq!(q.category, Some(LogCategory::Network));
    assert!(!q.unread_only);
    assert_eq!(q.start_time.as_deref(), Some("2024-01-01T00:00:00+00:00"));
    assert_eq!(q.end_time, None);
    assert_eq!(q.limit, 100);
    assert_eq!(q.offset, 4);
}

fn received(level: Option<&str>, ts: Option<&str>, msg: Option<&str>) -> ReceivedLogEntry {
    ReceivedLogEntry {
        level: level.map(|s| s.to_string()),
        category: None,
        timestamp: ts.map(|s| s.to_string()),
        message: msg.map(|s| s.to_string()),
        detail_json: None,
    }
}

fn message(action: &str, entries: Option<Vec<ReceivedLogEntry>>) -> ReceivedLogMessage {
    ReceivedLogMessage {
        action: action.to_string(),
        worker_id: Some("w9".to_string()),
        entries,
        level: Some("debug".to_string()),
        category: Some("storage".to_string()),
        message: Some("hi".to_string()),
        detail_json: None,
    }
}

#[test]
fn log_intake_plans() {
    match plan_log_message(&message(
        "log_batch",
        Some(vec![received(Some("error"), Some("2024-01-01T02:00:00+02:00"), Some("x")), received(None, None, None)]),
    )) {
        LogIntake::WriteBatch(es) => {
            assert_eq!(es.len(), 2);
            assert_eq!(es[0].level, LogLevel::Error);
            assert_eq!(es[0].timestamp, "2024-01-01T00:00:00+00:00");
            assert_eq!(es[0].worker_id, "w9");
            assert_eq!(es[1].level, LogLevel::Info);
            assert_eq!(es[1].category, LogCategory::Custom("custom".to_string()));
            assert_eq!(es[1].message, "");
        },
        other => panic!("unexpected {:?}", other),
    }
    match plan_log_message(&message("log_batch", None)) {
        LogIntake::Reply(r) => {
            assert_eq!(r.status, "error");
            assert_eq!(r.message, "缺少 entries 字段");
        },
        other => panic!("unexpected {:?}", other),
    }
    match plan_log_message(&message("log_single", None)) {
        LogIntake::WriteOne { worker_id, level, category, message, .. } => {
            assert_eq!(worker_id, "w9");
            assert_eq!(level, LogLevel::Debug);
            assert_eq!(category, LogCategory::Storage);
            assert_eq!(message, "hi");
        },
        other => panic!("unexpected {:?}", other),
    }
    match plan_log_message(&message("ping", None)) {
        LogIntake::Reply(r) => assert_eq!(r.message, "未知 action: ping"),
        other => panic!("unexpected {:?}", other),
    }
    let r = batch_stored(&Ok(12));
    assert_eq!((r.status.as_str(), r.message.as_str(), r.count), ("ok", "已接收 12 条日志", 12));
    let r = batch_stored(&Err("disk full".to_string()));
    assert_eq!((r.status.as_str(), r.message.as_str(), r.count), ("error", "写入日志失败: disk full", 0));
    let r = single_stored(&Ok(()));
    assert_eq!((r.message.as_str(), r.count), ("日志已接收", 1));
    assert_eq!(invalid_json_reply("eof").message, "无效的 JSON: eof");
}

fn object(key: &str, size: u64, ct: Option<&str>) -> ObjectMeta {
    ObjectMeta {
        key: key.to_string(),
        size,
        created_at: "2024-03-04T05:06:07+00:00".to_string(),
        updated_at: "2024-03-04T05:06:07+00:00".to_string(),
        content_type: ct.map(|s| s.to_string()),
        tags: None,
        checksum: None,
        storage_node: None,
    }
}

#[test]
fn statistics_changes() {
    let cs = put_stats_changes(&object("img/a.png", 10, Some("image/png")), &None, "2024-03-04");
    assert_eq!(cs.len(), 3);
    assert!(matches!(&cs[0], StatsChange::TypeAdded { content_type, size: 10 } if content_type == "image/png"));
    assert!(matches!(&cs[1], StatsChange::DayAdded { date, size: 10 } if date == "2024-03-04"));
    assert!(matches!(&cs[2], StatsChange::PrefixAdded { prefix, size: 10 } if prefix == "img/"));
    let cs = put_stats_changes(&object("flat", 7, None), &Some((3, None, "2024-03-05T01:00:00+00:00".to_string())), "2024-03-05");
    assert_eq!(cs.len(), 1);
    assert!(matches!(&cs[0], StatsChange::DayResized { old_size: 3, new_size: 7, .. }));
    let old = Some((10, Some("text/plain".to_string()), "2024-03-01T09:00:00+00:00".to_string()));
    let cs = put_stats_changes(&object("a/x", 4, Some("image/png")), &old, "2024-03-04");
    assert_eq!(cs.len(), 5);
    assert!(matches!(&cs[0], StatsChange::TypeRemoved { content_type, size: 10 } if content_type == "text/plain"));
    assert!(matches!(&cs[1], StatsChange::TypeAdded { content_type, size: 4 } if content_type == "image/png"));
    assert!(matches!(&cs[2], StatsChange::DayRemoved { date, size: 10 } if date == "2024-03-01"));
    assert!(matches!(&cs[3], StatsChange::DayAdded { date, size: 4 } if date == "2024-03-04"));
    assert!(matches!(&cs[4], StatsChange::PrefixResized { prefix, old_size: 10, new_size: 4 } if prefix == "a/"));
    let cs = delete_stats_changes("img/a.png", &Some((10, Some("image/png".to_string()), "2024-03-04T05:06:07+00:00".to_string())));
    assert_eq!(cs.len(), 3);
    assert!(matches!(&cs[1], StatsChange::DayRemoved { date, size: 10 } if date == "2024-03-04"));
    assert!(delete_stats_changes("x", &None).is_empty());
    let (sql, vals) = size_range_query(Some(1), Some(9), 5);
    assert!(sql.contains("size >= ?1 AND size <= ?2"));
    assert_eq!(vals, vec![1, 9, 5]);
    let (sql, vals) = size_range_query(None, None, 2);
    assert!(sql.ends_with("LIMIT ?1"));
    assert_eq!(vals, vec![2]);
}

#[test]
fn pending_region_files() {
    assert_eq!(region_paths("p", "2"), ("p/region_2.kv".to_string(), "p/region_2.meta".to_string()));
    assert_eq!(
        status_query(2),
        "SELECT key, size, created_at, status, attempt FROM pending_entries WHERE status IN (?1,?2)"
    );
}

#[test]
fn worker_settings_and_stats() {
    let c = WorkerConfig::new("w1", "0.0.0.0:50061", "http://m:1", "data/w1").with_cache_size(5).with_weight(3);
    assert_eq!(c.kv_path, "data/w1/kv.db");
    assert_eq!(c.meta_path, "data/w1/meta.db");
    assert_eq!(c.cache_size, 5);
    assert_eq!(c.weight, 3);
    assert_eq!(c.flush_interval_ms, 5);
    let mut s = WriteStats::new();
    s.record_put(10);
    s.record_put(5);
    s.record_flush(1, 10);
    let c1 = s.snapshot_counts();
    assert_eq!((c1.total_put_count, c1.pending_count, c1.pending_bytes, c1.window_count, c1.window_bytes), (2, 1, 5, 2, 15));
    s.record_put(1);
    let c2 = s.snapshot_counts();
    assert_eq!((c2.window_count, c2.window_bytes), (1, 1));
    s.record_flush(10, 100);
    let c3 = s.snapshot_counts();
    assert_eq!((c3.pending_count, c3.pending_bytes), (0, 0));
}

#[test]
fn text_helpers() {
    assert_eq!(decimal_string(0), "0");
    assert_eq!(decimal_string(u64::MAX), u64::MAX.to_string());
    assert!(starts_with("hello", "he") && !starts_with("he", "hello"));
    assert!(str_eq("a", "a") && !str_eq("a", "b"));
    assert_eq!(trim_start_matches("ababc", "ab"), "c");
    assert_eq!(join_path("a", "b"), "a/b");
    assert_eq!(join_path("a/", "b"), "a/b");
    assert_eq!(join_path("", "b"), "b");
    assert_eq!(concat2("x", "y"), "xy");
    assert_eq!(concat3("x", "y", "z"), "xyz");
}

#[test]
fn error_messages() {
    assert_eq!(StoreError::KeyNotFound("k".to_string()).to_string(), "Key not found: k");
    assert_eq!(StoreError::InvalidArgument("bad".to_string()).to_string(), "Invalid argument: bad");
    assert_eq!(StoreError::KvError("x".to_string()).to_string(), "KV database error: x");
}

#[test]
fn configuration_defaults() {
    let c = AppConfig::default();
    assert_eq!(c.mode, "master");
    assert_eq!(c.master.listen_addr, "0.0.0.0:50051");
    assert_eq!(c.shard.num_shards, 4);
    let q = QuadShardConfig::default();
    assert_eq!((q.base_level, q.split_level, q.data_type.as_str()), (8, 18, "objects"));
    let d = WorkerDefaultsConfig::default();
    assert_eq!((d.kv_ext.as_str(), d.cache_size, d.heartbeat_interval_secs), (".db", 10000, 10));
    let m = FileMasterConfig::default();
    assert_eq!(m.heartbeat_timeout_secs, 30);
}
