use store_system::listing::{merge_listing, merge_listings};
use store_system::meta::{extract_prefix, ObjectMeta};
use store_system::shard::{group_by_shard, replace_all, shard_index, simple_configs, ShardConfig, ShardLookup, ShardManager};
use store_system::store::{split_flush_ops, Store};
use store_system::write_buffer::{PendingOp, WriteBuffer};

fn meta(key: &str, size: u64) -> ObjectMeta {
    ObjectMeta {
        key: key.to_string(),
        size,
        created_at: "2024-01-01T00:00:00+00:00".to_string(),
        updated_at: "2024-01-01T00:00:00+00:00".to_string(),
        content_type: None,
        tags: None,
        checksum: None,
        storage_node: None,
    }
}

fn keys(v: &[ObjectMeta]) -> Vec<&str> {
    v.iter().map(|m| m.key.as_str()).collect()
}

#[test]
fn latest_write_wins_in_buffer() {
    let mut b = WriteBuffer::new();
    b.submit_put("k".to_string(), vec![1, 2, 3], meta("k", 3));
    b.submit_put("k".to_string(), vec![9], meta("k", 1));
    match b.get("k") {
        Some(PendingOp::Put { value, .. }) => assert_eq!(value, vec![9]),
        other => panic!("unexpected {:?}", other),
    }
    b.submit_delete("k".to_string());
    assert!(matches!(b.get("k"), Some(PendingOp::Delete)));
    assert!(b.get("other").is_none());
    assert_eq!(b.pending_len(), 3);
    assert_eq!(b.pending_bytes(), 4);
}

#[test]
fn drain_empties_buffer_and_returns_each_key_once() {
    let mut b = WriteBuffer::new();
    b.submit_put("a".to_string(), vec![1], meta("a", 1));
    b.submit_put("b".to_string(), vec![2, 2], meta("b", 2));
    b.submit_delete("a".to_string());
    let snap = b.snapshot();
    assert_eq!(snap.len(), 2);
    let mut out = b.drain();
    out.sort_by(|x, y| x.0.cmp(&y.0));
    assert_eq!(out.len(), 2);
    assert_eq!(out[0].0, "a");
    assert!(matches!(out[0].1, PendingOp::Delete));
    assert!(matches!(&out[1].1, PendingOp::Put { value, .. } if value == &vec![2, 2]));
    assert_eq!(b.pending_len(), 0);
    assert_eq!(b.pending_bytes(), 0);
    assert!(b.get("b").is_none());
}

#[test]
fn flush_batch_splits_puts_and_deletes() {
    let ops = vec![
        ("a".to_string(), PendingOp::Put { value: vec![1], meta: meta("a", 1) }),
        ("b".to_string(), PendingOp::Delete),
        ("c".to_string(), PendingOp::Put { value: vec![3, 3], meta: meta("c", 2) }),
    ];
    let batch = split_flush_ops(ops);
    assert_eq!(batch.put_kvs, vec![("a".to_string(), vec![1]), ("c".to_string(), vec![3, 3])]);
    assert_eq!(keys(&batch.put_metas), vec!["a", "c"]);
    assert_eq!(batch.del_keys, vec!["b"]);
}

#[test]
fn store_put_then_read_from_memory() {
    let mut s = Store::new(10);
    let m = s.put("x/1".to_string(), b"hello".to_vec(), Some("text/plain".to_string()), None);
    assert_eq!(m.key, "x/1");
    assert_eq!(m.size, 5);
    assert_eq!(m.content_type.as_deref(), Some("text/plain"));
    assert_eq!(m.created_at, m.updated_at);
    assert_eq!(s.exists_in_memory("x/1"), Some(true));
    assert_eq!(s.cached_value("x/1"), Some(b"hello".to_vec()));
    assert!(matches!(s.pending_op("x/1"), Some(PendingOp::Put { .. })));
    s.delete("x/1");
    assert_eq!(s.exists_in_memory("x/1"), Some(false));
    assert_eq!(s.cached_value("x/1"), None);
    assert_eq!(s.exists_in_memory("nothing"), None);
    s.remember("disk".to_string(), vec![7]);
    assert_eq!(s.exists_in_memory("disk"), Some(true));
    assert_eq!(s.pending_len(), 2);
    let batch = s.take_flush_batch();
    assert_eq!(batch.del_keys, vec!["x/1"]);
    assert!(batch.put_kvs.is_empty());
    assert!(s.pending_entries().is_empty());
}

#[test]
fn store_batch_put_records_each() {
    let mut s = Store::new(10);
    let ms = s.put_batch(vec![
        ("a".to_string(), vec![1, 2], None, None),
        ("b".to_string(), vec![], None, Some("{\"t\":1}".to_string())),
    ]);
    assert_eq!(keys(&ms), vec!["a", "b"]);
    assert_eq!(ms[0].size, 2);
    assert_eq!(ms[1].tags.as_deref(), Some("{\"t\":1}"));
    assert_eq!(s.pending_entries().len(), 2);
}

#[test]
fn listing_merges_disk_and_pending() {
    let mut s = Store::new(10);
    s.put("p/c".to_string(), vec![1], None, None);
    s.put("q/z".to_string(), vec![1], None, None);
    s.delete("p/a");
    let disk = vec![meta("p/b", 1), meta("p/a", 1), meta("p/d", 1)];
    let r = s.list(disk, "p/", 10);
    assert_eq!(keys(&r), vec!["p/b", "p/c", "p/d"]);
    let r = s.list(vec![meta("p/b", 1)], "p/", 1);
    assert_eq!(keys(&r), vec!["p/b"]);
}

#[test]
fn merge_listing_keeps_disk_record_for_pending_put() {
    let ents = vec![("k".to_string(), PendingOp::Put { value: vec![1, 2, 3], meta: meta("k", 3) })];
    let r = merge_listing(vec![meta("k", 99), meta("j", 1)], ents, "", 5);
    assert_eq!(keys(&r), vec!["j", "k"]);
    assert_eq!(r[1].size, 99);
    let r = merge_listing(vec![meta("b", 1), meta("a", 2)], vec![], "", 0);
    assert!(r.is_empty());
}

#[test]
fn merge_listings_first_record_wins() {
    let r = merge_listings(vec![vec![meta("b", 1), meta("a", 1)], vec![meta("a", 2), meta("c", 3)]], 10);
    assert_eq!(keys(&r), vec!["a", "b", "c"]);
    assert_eq!(r[0].size, 1);
    let r = merge_listings(vec![vec![meta("b", 1), meta("a", 1)], vec![meta("c", 3)]], 2);
    assert_eq!(keys(&r), vec!["a", "b"]);
}

#[test]
fn prefixes() {
    assert_eq!(extract_prefix("15/123/456.png").as_deref(), Some("15/"));
    assert_eq!(extract_prefix("plain"), None);
    assert_eq!(extract_prefix("/x").as_deref(), Some("/"));
}

#[test]
fn shard_configs_from_templates() {
    let cs = simple_configs("data", 3, "kv_{}", ".db", "meta_{}_{}", ".sqlite").unwrap();
    assert_eq!(cs.len(), 3);
    assert_eq!(cs[2].kv_name, "kv_2");
    assert_eq!(cs[1].meta_name, "meta_1_1");
    assert_eq!(cs[1].kv_path(), "data/kv_1.db");
    assert_eq!(cs[0].meta_path(), "data/meta_0_0.sqlite");
    assert!(simple_configs("data", 0, "kv_{}", ".db", "m", ".db").is_err());
    let c = ShardConfig::new(7, "/d");
    assert_eq!(c.kv_path(), "/d/kv_7.db");
    assert_eq!(c.meta_path(), "/d/meta_7.db");
    assert_eq!(replace_all("a{}b{}", "{}", "X"), "aXbX");
    assert_eq!(replace_all("{{}}", "{}", "1"), "{1}");
}

#[test]
fn shard_routing_uses_seahash() {
    for key in ["a", "key-1", "15/123/456.png", ""] {
        let expect = (seahash::hash(key.as_bytes()) as usize) % 4;
        assert_eq!(shard_index(key, 4), expect);
    }
    let m = ShardManager::open(simple_configs("d", 4, "kv_{}", ".db", "meta_{}", ".db").unwrap(), 100).unwrap();
    assert_eq!(m.num_shards(), 4);
    assert_eq!(m.route("key-1"), shard_index("key-1", 4));
    assert!(m.shard(3).is_ok());
    assert!(m.shard(4).is_err());
    assert!(ShardManager::open(vec![], 10).is_err());
}

#[test]
fn shard_manager_reads_its_own_writes() {
    let mut m = ShardManager::open(simple_configs("d", 3, "kv_{}", ".db", "meta_{}", ".db").unwrap(), 100).unwrap();
    let meta = m.put("k1".to_string(), b"v1".to_vec(), None, None);
    assert_eq!(meta.size, 2);
    let s = m.route("k1");
    let (at, found) = m.lookup("k1");
    assert_eq!(at, s);
    // a put caches its value, so the cache answers first
    match found {
        ShardLookup::Cached(v) => assert_eq!(v, b"v1".to_vec()),
        other => panic!("unexpected {:?}", other),
    }
    assert_eq!(m.exists_in_memory("k1"), Some(true));
    assert_eq!(m.pending_meta("k1").map(|x| x.size), Some(2));
    m.delete("k1");
    assert_eq!(m.exists_in_memory("k1"), Some(false));
    assert_eq!(m.pending_len(s), 2);
    let batch = m.take_flush_batch(s);
    assert_eq!(batch.del_keys, vec!["k1"]);
    assert_eq!(m.pending_len(s), 0);
    m.remember("k2".to_string(), vec![5]);
    assert!(matches!(m.lookup("k2").1, ShardLookup::Cached(ref v) if v == &vec![5]));
    assert!(matches!(m.lookup("k3").1, ShardLookup::OnDisk));
}

#[test]
fn shard_listing_across_shards() {
    let mut m = ShardManager::open(simple_configs("d", 2, "kv_{}", ".db", "meta_{}", ".db").unwrap(), 100).unwrap();
    m.put("p/new".to_string(), vec![1], None, None);
    m.delete("p/gone");
    let mut disks = vec![vec![], vec![]];
    disks[m.route("p/old")].push(meta("p/old", 1));
    disks[m.route("p/gone")].push(meta("p/gone", 1));
    let r = m.list(disks, "p/", 10);
    assert_eq!(keys(&r), vec!["p/new", "p/old"]);
    let ms = m.put_batch(vec![("x".to_string(), vec![1], None, None), ("y".to_string(), vec![2, 2], None, None)]);
    assert_eq!(keys(&ms), vec!["x", "y"]);
    assert_eq!(m.shards().len(), 2);
}

#[test]
fn grouping_by_shard_keeps_order() {
    let items: Vec<(String, u32)> = (0..20).map(|i| (format!("k{}", i), i)).collect();
    let g = group_by_shard(items.clone(), 3);
    assert_eq!(g.len(), 3);
    for (s, group) in g.iter().enumerate() {
        let expect: Vec<(String, u32)> = items.iter().filter(|(k, _)| shard_index(k, 3) == s).cloned().collect();
        assert_eq!(group, &expect);
    }
}

#[test]
fn store_reads_its_own_writes_and_deletes_go_to_disk() {
    let mut s = Store::new(10);
    s.put("k".to_string(), b"one".to_vec(), None, None);
    s.put("k".to_string(), b"two".to_vec(), None, None);
    match s.lookup("k") {
        ShardLookup::Cached(v) | ShardLookup::Pending(v, _) => assert_eq!(v, b"two".to_vec()),
        ShardLookup::OnDisk => panic!("a pending put must be found in memory"),
    }
    s.delete("k");
    assert!(matches!(s.lookup("k"), ShardLookup::OnDisk));
    assert_eq!(s.exists_in_memory("k"), Some(false));
    assert!(matches!(s.lookup("never"), ShardLookup::OnDisk));
}

#[test]
fn full_shard_cache_keeps_an_older_value() {
    let mut m = ShardManager::open(simple_configs("d", 1, "kv_{}", ".db", "meta_{}", ".db").unwrap(), 1).unwrap();
    m.put("k".to_string(), b"old".to_vec(), None, None);
    m.put("k".to_string(), b"new".to_vec(), None, None);
    // the single-entry cache is full, so the second put does not replace the cached value
    assert!(matches!(m.lookup("k").1, ShardLookup::Cached(ref v) if v == &b"old".to_vec()));
    assert!(matches!(m.pending_meta("k"), Some(ref md) if md.size == 3));
    let mut fresh = ShardManager::open(simple_configs("d", 1, "kv_{}", ".db", "meta_{}", ".db").unwrap(), 1).unwrap();
    fresh.put("a".to_string(), b"x".to_vec(), None, None);
    fresh.put("b".to_string(), b"yy".to_vec(), None, None);
    // no room for b in the cache: the read finds the pending put
    assert!(matches!(fresh.lookup("b").1, ShardLookup::Pending(ref v, _) if v == &b"yy".to_vec()));
}

#[test]
fn shard_delete_sends_the_read_to_disk() {
    let mut m = ShardManager::open(simple_configs("d", 2, "kv_{}", ".db", "meta_{}", ".db").unwrap(), 10).unwrap();
    m.put("k".to_string(), b"v".to_vec(), None, None);
    m.delete("k");
    assert!(matches!(m.lookup("k").1, ShardLookup::OnDisk));
}

#[test]
fn store_batch_queues_the_last_value_of_each_key() {
    let mut s = Store::new(10);
    let items = vec![
        ("a".to_string(), b"1".to_vec(), None, None),
        ("b".to_string(), b"2".to_vec(), None, None),
        ("a".to_string(), b"333".to_vec(), None, None),
    ];
    let ms = s.put_batch(items);
    assert_eq!(ms.len(), 3);
    assert!(matches!(s.pending_op("a"), Some(PendingOp::Put { ref value, .. }) if value == &b"333".to_vec()));
    assert!(matches!(s.pending_op("b"), Some(PendingOp::Put { ref value, .. }) if value == &b"2".to_vec()));
}

#[test]
fn shard_batch_queues_the_last_value_of_each_key() {
    let mut m = ShardManager::open(simple_configs("d", 2, "kv_{}", ".db", "meta_{}", ".db").unwrap(), 10).unwrap();
    let items = vec![
        ("a".to_string(), b"1".to_vec(), None, None),
        ("a".to_string(), b"4444".to_vec(), None, None),
    ];
    m.put_batch(items);
    assert!(matches!(m.pending_meta("a"), Some(ref md) if md.size == 4));
}

#[test]
fn listings_drop_disk_records_outside_the_prefix() {
    let s = Store::new(10);
    let disk = vec![meta("p/a", 1), meta("P/b", 1), meta("pxc", 1)];
    assert_eq!(keys(&s.list(disk, "p/", 10)), vec!["p/a"]);
    let m = ShardManager::open(simple_configs("d", 2, "kv_{}", ".db", "meta_{}", ".db").unwrap(), 10).unwrap();
    let mut disks = vec![vec![], vec![]];
    disks[m.route("p/a")].push(meta("p/a", 1));
    disks[m.route("P/b")].push(meta("P/b", 1));
    assert_eq!(keys(&m.list(disks, "p/", 10)), vec!["p/a"]);
}
