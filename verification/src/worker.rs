//! A worker node's settings and its write statistics.

use crate::shard::ShardConfig;
use crate::text::{join_path, path_join};
use vstd::prelude::*;

verus! {

/// How a worker node runs.
#[derive(Debug, Clone)]
pub struct WorkerConfig {
    pub worker_id: String,
    /// Address the worker's gRPC service listens on.
    pub listen_addr: String,
    /// Address of the master it registers with.
    pub master_addr: String,
    /// Key-value database of the single-database layout.
    pub kv_path: String,
    /// Metadata database of the single-database layout.
    pub meta_path: String,
    pub cache_size: usize,
    pub flush_interval_ms: u64,
    pub heartbeat_interval_secs: u64,
    pub weight: i32,
    /// The shards, when the worker is sharded.
    pub shard_configs: Option<Vec<ShardConfig>>,
}

impl WorkerConfig {
    /// A worker keeping "kv.db" and "meta.db" in `data_dir`, with a cache of
    /// 10000 values, a 5 ms flush interval, a heartbeat every 10 s, weight 1
    /// and no shards.
    pub fn new(worker_id: &str, listen_addr: &str, master_addr: &str, data_dir: &str) -> (c: Self)
        ensures
            c.worker_id@ == worker_id@,
            c.listen_addr@ == listen_addr@,
            c.master_addr@ == master_addr@,
            c.kv_path@ == path_join(data_dir@, "kv.db"@),
            c.meta_path@ == path_join(data_dir@, "meta.db"@),
            c.cache_size == 10000,
            c.flush_interval_ms == 5,
            c.heartbeat_interval_secs == 10,
            c.weight == 1,
            c.shard_configs is None,
    {
        WorkerConfig {
            worker_id: worker_id.to_owned(),
            listen_addr: listen_addr.to_owned(),
            master_addr: master_addr.to_owned(),
            kv_path: join_path(data_dir, "kv.db"),
            meta_path: join_path(data_dir, "meta.db"),
            cache_size: 10000,
            flush_interval_ms: 5,
            heartbeat_interval_secs: 10,
            weight: 1,
            shard_configs: None,
        }
    }

    /// The same settings with another key-value database path.
    pub fn with_kv_path(self, path: &str) -> (c: Self)
        ensures
            c == (WorkerConfig { kv_path: c.kv_path, ..self }),
            c.kv_path@ == path@,
    {
        WorkerConfig { kv_path: path.to_owned(), ..self }
    }

    /// The same settings with another metadata database path.
    pub fn with_meta_path(self, path: &str) -> (c: Self)
        ensures
            c == (WorkerConfig { meta_path: c.meta_path, ..self }),
            c.meta_path@ == path@,
    {
        WorkerConfig { meta_path: path.to_owned(), ..self }
    }

    /// The same settings with another cache size.
    pub fn with_cache_size(self, size: usize) -> (c: Self)
        ensures
            c == (WorkerConfig { cache_size: size, ..self }),
    {
        WorkerConfig { cache_size: size, ..self }
    }

    /// The same settings with another flush interval.
    pub fn with_flush_interval(self, ms: u64) -> (c: Self)
        ensures
            c == (WorkerConfig { flush_interval_ms: ms, ..self }),
    {
        WorkerConfig { flush_interval_ms: ms, ..self }
    }

    /// The same settings with another heartbeat interval.
    pub fn with_heartbeat_interval(self, secs: u64) -> (c: Self)
        ensures
            c == (WorkerConfig { heartbeat_interval_secs: secs, ..self }),
    {
        WorkerConfig { heartbeat_interval_secs: secs, ..self }
    }

    /// The same settings with another weight.
    pub fn with_weight(self, weight: i32) -> (c: Self)
        ensures
            c == (WorkerConfig { weight, ..self }),
    {
        WorkerConfig { weight, ..self }
    }

    /// The same settings, sharded over `configs`.
    pub fn with_shards(self, configs: Vec<ShardConfig>) -> (c: Self)
        ensures
            c == (WorkerConfig { shard_configs: Some(configs), ..self }),
    {
        WorkerConfig { shard_configs: Some(configs), ..self }
    }
}

/// Counts of one statistics report: totals, what is still pending, and
/// what was put since the previous report.
#[derive(Debug, Clone, Copy, PartialEq, Eq, Structural)]
pub struct WriteCounts {
    pub total_put_count: u64,
    pub total_put_bytes: u64,
    pub flushed_count: u64,
    pub flushed_bytes: u64,
    /// Puts not yet flushed (never below zero).
    pub pending_count: u64,
    /// Bytes not yet flushed (never below zero).
    pub pending_bytes: u64,
    /// Puts since the previous report.
    pub window_count: u64,
    /// Bytes put since the previous report.
    pub window_bytes: u64,
}

/// A worker's write counters. Every counter wraps on overflow, as atomic
/// adds do.
#[derive(Debug)]
pub struct WriteStats {
    total_put_count: u64,
    total_put_bytes: u64,
    flushed_count: u64,
    flushed_bytes: u64,
    window_start_count: u64,
    window_start_bytes: u64,
}

/// `a - b`, or 0 when `b` is larger.
pub open spec fn saturating_diff(a: u64, b: u64) -> u64 {
    if a >= b {
        (a - b) as u64
    } else {
        0
    }
}

impl WriteStats {
    /// Puts recorded.
    pub closed spec fn puts(&self) -> u64 {
        self.total_put_count
    }

    /// Bytes put.
    pub closed spec fn put_bytes(&self) -> u64 {
        self.total_put_bytes
    }

    /// Operations flushed.
    pub closed spec fn flushed(&self) -> u64 {
        self.flushed_count
    }

    /// Bytes flushed.
    pub closed spec fn flushed_byte_count(&self) -> u64 {
        self.flushed_bytes
    }

    /// Puts counted at the previous report.
    pub closed spec fn window_puts(&self) -> u64 {
        self.window_start_count
    }

    /// Bytes counted at the previous report.
    pub closed spec fn window_put_bytes(&self) -> u64 {
        self.window_start_bytes
    }

    /// All counters at zero.
    pub fn new() -> (s: Self)
        ensures
            s.puts() == 0,
            s.put_bytes() == 0,
            s.flushed() == 0,
            s.flushed_byte_count() == 0,
            s.window_puts() == 0,
            s.window_put_bytes() == 0,
    {
        WriteStats {
            total_put_count: 0,
            total_put_bytes: 0,
            flushed_count: 0,
            flushed_bytes: 0,
            window_start_count: 0,
            window_start_bytes: 0,
        }
    }

    /// Counts one put of `byte_len` bytes.
    pub fn record_put(&mut self, byte_len: u64)
        ensures
            final(self).puts() == old(self).puts().wrapping_add(1),
            final(self).put_bytes() == old(self).put_bytes().wrapping_add(byte_len),
            final(self).flushed() == old(self).flushed(),
            final(self).flushed_byte_count() == old(self).flushed_byte_count(),
            final(self).window_puts() == old(self).window_puts(),
            final(self).window_put_bytes() == old(self).window_put_bytes(),
    {
        self.total_put_count = self.total_put_count.wrapping_add(1);
        self.total_put_bytes = self.total_put_bytes.wrapping_add(byte_len);
    }

    /// Counts `count` operations of `bytes` bytes written to disk.
    pub fn record_flush(&mut self, count: u64, bytes: u64)
        ensures
            final(self).flushed() == old(self).flushed().wrapping_add(count),
            final(self).flushed_byte_count() == old(self).flushed_byte_count().wrapping_add(bytes),
            final(self).puts() == old(self).puts(),
            final(self).put_bytes() == old(self).put_bytes(),
            final(self).window_puts() == old(self).window_puts(),
            final(self).window_put_bytes() == old(self).window_put_bytes(),
    {
        self.flushed_count = self.flushed_count.wrapping_add(count);
        self.flushed_bytes = self.flushed_bytes.wrapping_add(bytes);
    }

    /// The counts of a report, which starts a new window at the current
    /// totals.
    pub fn snapshot_counts(&mut self) -> (c: WriteCounts)
        ensures
            c.total_put_count == old(self).puts(),
            c.total_put_bytes == old(self).put_bytes(),
            c.flushed_count == old(self).flushed(),
            c.flushed_bytes == old(self).flushed_byte_count(),
            c.pending_count == saturating_diff(old(self).puts(), old(self).flushed()),
            c.pending_bytes == saturating_diff(old(self).put_bytes(), old(self).flushed_byte_count()),
            c.window_count == saturating_diff(old(self).puts(), old(self).window_puts()),
            c.window_bytes == saturating_diff(old(self).put_bytes(), old(self).window_put_bytes()),
            final(self).window_puts() == old(self).puts(),
            final(self).window_put_bytes() == old(self).put_bytes(),
            final(self).puts() == old(self).puts(),
            final(self).put_bytes() == old(self).put_bytes(),
            final(self).flushed() == old(self).flushed(),
            final(self).flushed_byte_count() == old(self).flushed_byte_count(),
    {
        let c = WriteCounts {
            total_put_count: self.total_put_count,
            total_put_bytes: self.total_put_bytes,
            flushed_count: self.flushed_count,
            flushed_bytes: self.flushed_bytes,
            pending_count: self.total_put_count.saturating_sub(self.flushed_count),
            pending_bytes: self.total_put_bytes.saturating_sub(self.flushed_bytes),
            window_count: self.total_put_count.saturating_sub(self.window_start_count),
            window_bytes: self.total_put_bytes.saturating_sub(self.window_start_bytes),
        };
        self.window_start_count = self.total_put_count;
        self.window_start_bytes = self.total_put_bytes;
        c
    }
}

} // verus!
