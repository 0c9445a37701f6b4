use store_system::logger::{
    acknowledge_batch_sql, build_where, count_sql, join_texts, query_sql, recent_errors_query, unread_query,
    LocalLogEntry, LogCategory, LogLevel, LogQuery, WorkerLogger,
};

#[test]
fn test_log_level_from_str() {
    assert_eq!(LogLevel::from("info"), LogLevel::Info);
    assert_eq!(LogLevel::from("INFO"), LogLevel::Info);
    assert_eq!(LogLevel::from("warn"), LogLevel::Warn);
    assert_eq!(LogLevel::from("warning"), LogLevel::Warn);
    assert_eq!(LogLevel::from("error"), LogLevel::Error);
    assert_eq!(LogLevel::from("debug"), LogLevel::Debug);
    assert_eq!(LogLevel::from("unknown"), LogLevel::Info); // default
}

#[test]
fn test_log_level_display() {
    assert_eq!(LogLevel::Info.to_string(), "info");
    assert_eq!(LogLevel::Warn.to_string(), "warn");
    assert_eq!(LogLevel::Error.to_string(), "error");
    assert_eq!(LogLevel::Debug.to_string(), "debug");
}

#[test]
fn test_log_category_from_str() {
    assert_eq!(LogCategory::from("system_health"), LogCategory::SystemHealth);
    assert_eq!(LogCategory::from("network"), LogCategory::Network);
    assert_eq!(LogCategory::from("storage"), LogCategory::Storage);
    assert_eq!(LogCategory::from("my_custom"), LogCategory::Custom("my_custom".to_string()));
}

#[test]
fn level_and_category_names_round_trip() {
    for l in [LogLevel::Debug, LogLevel::Info, LogLevel::Warn, LogLevel::Error] {
        assert_eq!(LogLevel::from(l.to_string().as_str()), l);
    }
    for c in [
        LogCategory::SystemHealth,
        LogCategory::DataOperation,
        LogCategory::Network,
        LogCategory::Storage,
        LogCategory::Custom("Mixed_Case".to_string()),
    ] {
        assert_eq!(LogCategory::from(c.to_string().as_str()), c);
    }
    assert_eq!(LogCategory::from("DATA_OPERATION"), LogCategory::DataOperation);
    assert_eq!(LogCategory::from("Weird"), LogCategory::Custom("Weird".to_string()));
    assert_eq!(LogLevel::from("WaRnInG"), LogLevel::Warn);
}

#[test]
fn test_worker_logger_buffer_push() {
    let mut logger = WorkerLogger::new("worker-1", "127.0.0.1:9999");
    logger.info(LogCategory::SystemHealth, "hello");
    logger.warn(LogCategory::Network, "world");

    let buf = logger.buffer();
    assert_eq!(buf.len(), 2);
    assert_eq!(buf[0].message, "hello");
    assert_eq!(buf[1].message, "world");
}

#[test]
fn test_worker_logger_max_buffer_not_exceeded() {
    let mut logger = WorkerLogger::new("worker-1", "127.0.0.1:9999").with_max_buffer(3);

    for i in 0..10 {
        logger.info(LogCategory::SystemHealth, &format!("msg-{}", i));
    }

    let buf = logger.buffer();
    assert_eq!(buf.len(), 3, "buffer should be capped at max_buffer_size");
}

fn entry(message: String) -> LocalLogEntry {
    LocalLogEntry {
        level: LogLevel::Info,
        category: LogCategory::SystemHealth,
        message,
        detail_json: None,
        timestamp: "2024-01-01T00:00:00+00:00".to_string(),
    }
}

#[test]
fn test_restore_to_buffer_caps_at_max() {
    let mut logger = WorkerLogger::new("worker-1", "127.0.0.1:9999").with_max_buffer(5);

    for i in 0..3 {
        logger.info(LogCategory::SystemHealth, &format!("existing-{}", i));
    }

    let to_restore: Vec<LocalLogEntry> = (0..10).map(|i| entry(format!("restored-{}", i))).collect();

    logger.restore_to_buffer(to_restore);

    let buf = logger.buffer();
    assert_eq!(buf.len(), 5, "buffer should be capped at max_buffer_size");
    assert!(buf[0].message.starts_with("restored-"));
    assert!(buf[1].message.starts_with("restored-"));
}

#[test]
fn failed_flush_puts_entries_back_in_front() {
    let mut logger = WorkerLogger::new("worker-1", "127.0.0.1:9999");
    logger.info(LogCategory::SystemHealth, "a");
    logger.info(LogCategory::SystemHealth, "b");
    let taken = logger.take_entries();
    assert_eq!(taken.len(), 2);
    assert!(logger.buffer().is_empty());
    logger.error(LogCategory::Storage, "c");
    logger.restore_to_buffer(taken);
    let msgs: Vec<&str> = logger.buffer().iter().map(|e| e.message.as_str()).collect();
    assert_eq!(msgs, vec!["a", "b", "c"]);
    assert_eq!(logger.buffer()[2].level, LogLevel::Error);
}

#[test]
fn logger_settings_and_endpoint() {
    let logger = WorkerLogger::new("w-7", "ws://10.0.0.1:8081");
    assert_eq!(logger.worker_id(), "w-7");
    assert_eq!(logger.master_ws_addr(), "10.0.0.1:8081");
    assert_eq!(logger.max_buffer_size(), 1000);
    assert_eq!(logger.flush_interval_ms(), 1000);
    assert_eq!(logger.ws_url(), "ws://10.0.0.1:8081");
    assert_eq!(logger.register_message(), "{\"action\":\"register\",\"worker_id\":\"w-7\"}");
    let l2 = WorkerLogger::new("w", "wss://h:1").with_flush_interval(250);
    assert_eq!(l2.master_ws_addr(), "h:1");
    assert_eq!(l2.flush_interval_ms(), 250);
}

#[test]
fn detail_is_kept() {
    let mut logger = WorkerLogger::new("w", "h:1");
    logger.log_with_detail(LogLevel::Debug, LogCategory::DataOperation, "m", Some("{\"k\":1}"));
    logger.debug(LogCategory::Network, "n");
    let b = logger.buffer();
    assert_eq!(b[0].detail_json.as_deref(), Some("{\"k\":1}"));
    assert_eq!(b[0].level, LogLevel::Debug);
    assert_eq!(b[1].detail_json, None);
}

#[test]
fn where_clause_numbers_placeholders_in_order() {
    let q = LogQuery {
        worker_id: Some("w1".to_string()),
        level: Some(LogLevel::Error),
        category: Some(LogCategory::Network),
        keyword: Some("disk".to_string()),
        unread_only: true,
        start_time: Some("2024-01-01T00:00:00+00:00".to_string()),
        end_time: Some("2024-02-01T00:00:00+00:00".to_string()),
        limit: 0,
        offset: 5,
    };
    let (w, values) = build_where(&q);
    assert_eq!(
        w,
        " WHERE worker_id = ?1 AND level = ?2 AND category = ?3 AND message LIKE ?4 AND acknowledged = 0 AND timestamp >= ?5 AND timestamp <= ?6"
    );
    assert_eq!(
        values,
        vec!["w1", "error", "network", "%disk%", "2024-01-01T00:00:00+00:00", "2024-02-01T00:00:00+00:00"]
    );
    let (sql, _) = query_sql(&q);
    assert!(sql.ends_with("LIMIT 100 OFFSET 5"));
    assert!(sql.starts_with("SELECT id, worker_id, level, category, message, detail_json, timestamp, acknowledged"));
    let (c, v2) = count_sql(&q);
    assert_eq!(c, format!("SELECT COUNT(*) FROM logs{}", w));
    assert_eq!(v2.len(), 6);
}

#[test]
fn empty_query_has_no_where() {
    let (w, values) = build_where(&LogQuery::default());
    assert_eq!(w, "");
    assert!(values.is_empty());
    let (sql, _) = query_sql(&LogQuery { limit: 7, ..LogQuery::default() });
    assert!(sql.contains("FROM logs\n"));
    assert!(sql.ends_with("LIMIT 7 OFFSET 0"));
}

#[test]
fn canned_queries() {
    let q = recent_errors_query(20);
    assert_eq!(q.level, Some(LogLevel::Error));
    assert_eq!(q.limit, 20);
    let (w, _) = build_where(&unread_query(3));
    assert_eq!(w, " WHERE acknowledged = 0");
    assert_eq!(acknowledge_batch_sql(3), "UPDATE logs SET acknowledged = 1 WHERE id IN (?1, ?2, ?3)");
    assert_eq!(acknowledge_batch_sql(0), "UPDATE logs SET acknowledged = 1 WHERE id IN ()");
    assert_eq!(join_texts(&vec!["a".to_string(), "b".to_string()], "-"), "a-b");
}

#[test]
fn level_names_read_back_in_any_case() {
    for l in [LogLevel::Debug, LogLevel::Info, LogLevel::Warn, LogLevel::Error] {
        assert_eq!(LogLevel::from(l.to_string().as_str()), l);
        assert_eq!(LogLevel::from(l.to_string().to_ascii_uppercase().as_str()), l);
    }
    assert_eq!(LogLevel::from("WarNing"), LogLevel::Warn);
}

#[test]
fn restoring_drops_the_oldest_returned_entries() {
    let mut logger = WorkerLogger::new("worker-1", "127.0.0.1:9999").with_max_buffer(5);
    for i in 0..3 {
        logger.info(LogCategory::SystemHealth, &format!("existing-{}", i));
    }
    let to_restore: Vec<LocalLogEntry> = (0..10).map(|i| entry(format!("restored-{}", i))).collect();
    logger.restore_to_buffer(to_restore);
    let msgs: Vec<&str> = logger.buffer().iter().map(|e| e.message.as_str()).collect();
    assert_eq!(msgs, vec!["restored-8", "restored-9", "existing-0", "existing-1", "existing-2"]);
}

#[test]
fn category_names_read_in_any_case() {
    assert_eq!(LogCategory::parse("STORAGE"), LogCategory::Storage);
    assert_eq!(LogCategory::parse("System_Health"), LogCategory::SystemHealth);
    assert!(matches!(LogCategory::parse("Other"), LogCategory::Custom(ref s) if s == "Other"));
}
