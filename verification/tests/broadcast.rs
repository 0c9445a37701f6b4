use store_system::broadcast::ConfigBroadcaster;
use tokio::sync::mpsc;

fn send_to(b: &ConfigBroadcaster<mpsc::UnboundedSender<String>>, worker_id: &str, msg: &str) {
    if let Some(tx) = b.target(worker_id) {
        let _ = tx.send(msg.to_string());
    }
}

fn send_all(b: &ConfigBroadcaster<mpsc::UnboundedSender<String>>, msg: &str) {
    for (_, tx) in b.entries() {
        let _ = tx.send(msg.to_string());
    }
}

#[test]
fn test_config_broadcaster_register_and_broadcast() {
    let mut broadcaster = ConfigBroadcaster::new();
    let (tx, mut rx) = mpsc::unbounded_channel::<String>();
    broadcaster.register("worker-0".to_string(), tx);

    assert_eq!(broadcaster.len(), 1);

    send_to(&broadcaster, "worker-0", r#"{"type":"config_update","config_version":2}"#);

    let msg = rx.try_recv().expect("should receive message");
    assert!(msg.contains("config_update"));
    assert!(msg.contains("\"config_version\":2"));
}

#[test]
fn test_config_broadcaster_unregister() {
    let mut broadcaster = ConfigBroadcaster::new();
    let (tx, _rx) = mpsc::unbounded_channel::<String>();
    broadcaster.register("worker-0".to_string(), tx);
    assert_eq!(broadcaster.len(), 1);

    broadcaster.unregister("worker-0");
    assert_eq!(broadcaster.len(), 0);
    assert!(broadcaster.is_empty());

    send_to(&broadcaster, "worker-0", "{}");
}

#[test]
fn test_config_broadcaster_broadcast_all() {
    let mut broadcaster = ConfigBroadcaster::new();
    let (tx1, mut rx1) = mpsc::unbounded_channel::<String>();
    let (tx2, mut rx2) = mpsc::unbounded_channel::<String>();
    broadcaster.register("worker-0".to_string(), tx1);
    broadcaster.register("worker-1".to_string(), tx2);

    send_all(&broadcaster, r#"{"type":"config_update"}"#);

    let m1 = rx1.try_recv().expect("worker-0 should receive");
    let m2 = rx2.try_recv().expect("worker-1 should receive");
    assert!(m1.contains("config_update"));
    assert!(m2.contains("config_update"));
}

#[test]
fn test_config_broadcaster_unknown_worker_no_panic() {
    let broadcaster: ConfigBroadcaster<mpsc::UnboundedSender<String>> = ConfigBroadcaster::new();
    send_to(&broadcaster, "worker-99", "{}");
    assert!(broadcaster.target("worker-99").is_none());
}

#[test]
fn re_registering_replaces_the_channel() {
    let mut b = ConfigBroadcaster::new();
    b.register("w".to_string(), 1u32);
    b.register("v".to_string(), 2u32);
    b.register("w".to_string(), 3u32);
    assert_eq!(b.len(), 2);
    assert_eq!(b.target("w"), Some(&3));
    assert_eq!(b.target("v"), Some(&2));
    b.unregister("nobody");
    assert_eq!(b.len(), 2);
    b.unregister("w");
    assert_eq!(b.target("w"), None);
    assert_eq!(b.entries().len(), 1);
}
