//! Application configuration: the sections of the YAML file and the value
//! each field takes when the file leaves it out.

use crate::text::path_join;
use vstd::prelude::*;

verus! {

/// Run mode used when the file names none.
pub fn default_mode() -> (s: String)
    ensures
        s@ == "master"@,
{
    "master".to_owned()
}

/// Master-to-worker protocol used when the file names none.
pub fn default_protocol() -> (s: String)
    ensures
        s@ == "both"@,
{
    "both".to_owned()
}

/// Address the master listens on by default.
pub fn default_master_listen() -> (s: String)
    ensures
        s@ == "0.0.0.0:50051"@,
{
    "0.0.0.0:50051".to_owned()
}

/// Path of the master's metadata database by default.
pub fn default_master_meta_path() -> (s: String)
    ensures
        s@ == "master_data/master.db"@,
{
    "master_data/master.db".to_owned()
}

/// Worker identifier used by default.
pub fn default_worker_id() -> (s: String)
    ensures
        s@ == "worker-1"@,
{
    "worker-1".to_owned()
}

/// Address a worker listens on by default.
pub fn default_worker_listen() -> (s: String)
    ensures
        s@ == "0.0.0.0:50061"@,
{
    "0.0.0.0:50061".to_owned()
}

/// Master address a worker registers with by default.
pub fn default_master_addr() -> (s: String)
    ensures
        s@ == "http://127.0.0.1:50051"@,
{
    "http://127.0.0.1:50051".to_owned()
}

/// Worker data directory by default.
pub fn default_worker_data_dir() -> (s: String)
    ensures
        s@ == "worker_data/worker-1"@,
{
    "worker_data/worker-1".to_owned()
}

/// KV database file stem by default.
pub fn default_kv_name() -> (s: String)
    ensures
        s@ == "kv"@,
{
    "kv".to_owned()
}

/// KV database file extension by default.
pub fn default_kv_ext() -> (s: String)
    ensures
        s@ == ".db"@,
{
    ".db".to_owned()
}

/// Metadata database file stem by default.
pub fn default_meta_name() -> (s: String)
    ensures
        s@ == "meta"@,
{
    "meta".to_owned()
}

/// Metadata database file extension by default.
pub fn default_meta_ext() -> (s: String)
    ensures
        s@ == ".db"@,
{
    ".db".to_owned()
}

/// Quadkey region a worker serves by default.
pub fn default_region() -> (s: String)
    ensures
        s@ == "0"@,
{
    "0".to_owned()
}

/// Master WebSocket address for log shipping by default.
pub fn default_master_ws_addr() -> (s: String)
    ensures
        s@ == "127.0.0.1:50053"@,
{
    "127.0.0.1:50053".to_owned()
}

/// KV database path in standalone mode by default.
pub fn default_standalone_kv_path() -> (s: String)
    ensures
        s@ == "data/kv.db"@,
{
    "data/kv.db".to_owned()
}

/// Metadata database path in standalone mode by default.
pub fn default_standalone_meta_path() -> (s: String)
    ensures
        s@ == "data/meta.db"@,
{
    "data/meta.db".to_owned()
}

/// Shard data directory by default.
pub fn default_shard_data_dir() -> (s: String)
    ensures
        s@ == "shard_data"@,
{
    "shard_data".to_owned()
}

/// KV file stem template for shards by default.
pub fn default_kv_name_template() -> (s: String)
    ensures
        s@ == "kv_{}"@,
{
    "kv_{}".to_owned()
}

/// Metadata file stem template for shards by default.
pub fn default_meta_name_template() -> (s: String)
    ensures
        s@ == "meta_{}"@,
{
    "meta_{}".to_owned()
}

/// Quadkey shard root directory by default.
pub fn default_quad_data_dir() -> (s: String)
    ensures
        s@ == "quad_data"@,
{
    "quad_data".to_owned()
}

/// Quadkey data-type subdirectory by default.
pub fn default_quad_data_type() -> (s: String)
    ensures
        s@ == "objects"@,
{
    "objects".to_owned()
}

/// Largest message accepted, 256 MiB, by default.
pub fn default_max_message_size() -> (r: usize)
    ensures
        r == 268435456,
{
    268435456
}

/// Seconds without a heartbeat before a worker counts as dead.
pub fn default_heartbeat_timeout() -> (r: u64)
    ensures
        r == 30,
{
    30
}

/// Seconds between dead-worker sweeps by default.
pub fn default_cleanup_interval() -> (r: u64)
    ensures
        r == 60,
{
    60
}

/// Cache capacity by default.
pub fn default_cache_size() -> (r: usize)
    ensures
        r == 10000,
{
    10000
}

/// Milliseconds between buffer flushes by default.
pub fn default_flush_interval() -> (r: u64)
    ensures
        r == 5,
{
    5
}

/// Seconds between worker heartbeats by default.
pub fn default_heartbeat_interval() -> (r: u64)
    ensures
        r == 10,
{
    10
}

/// Worker weight by default.
pub fn default_weight() -> (r: i32)
    ensures
        r == 1,
{
    1
}

/// RESTful port in standalone mode by default.
pub fn default_http_port() -> (r: u16)
    ensures
        r == 8080,
{
    8080
}

/// gRPC port in standalone mode by default.
pub fn default_grpc_port() -> (r: u16)
    ensures
        r == 50051,
{
    50051
}

/// Number of shards by default.
pub fn default_num_shards() -> (r: usize)
    ensures
        r == 4,
{
    4
}

/// Quadkey level up to which everything goes to the base database.
pub fn default_base_level() -> (r: u32)
    ensures
        r == 8,
{
    8
}

/// Quadkey level from which eight-character prefixes name databases.
pub fn default_split_level() -> (r: u32)
    ensures
        r == 18,
{
    18
}

/// Settings shared by every node.
#[derive(Debug, Clone)]
pub struct GlobalConfig {
    /// Largest message in bytes.
    pub max_message_size: usize,
    /// Master-to-worker protocol: "grpc", "restful", "ws" or "both".
    pub protocol: String,
}

impl Default for GlobalConfig {
    fn default() -> (r: Self)
        ensures
            r.max_message_size == 268435456,
            r.protocol@ == "both"@,
    {
        GlobalConfig { max_message_size: default_max_message_size(), protocol: default_protocol() }
    }
}

/// Master node section.
#[derive(Debug, Clone)]
pub struct MasterConfig {
    pub listen_addr: String,
    pub meta_path: String,
    pub heartbeat_timeout_secs: u64,
    pub cleanup_interval_secs: u64,
    pub kv_name: String,
    pub kv_ext: String,
    pub meta_name: String,
    pub meta_ext: String,
    pub cache_size: usize,
    pub flush_interval_ms: u64,
}

impl Default for MasterConfig {
    fn default() -> (r: Self)
        ensures
            r.listen_addr@ == "0.0.0.0:50051"@,
            r.meta_path@ == "master_data/master.db"@,
            r.heartbeat_timeout_secs == 30,
            r.cleanup_interval_secs == 60,
            r.kv_name@ == "kv"@,
            r.kv_ext@ == ".db"@,
            r.meta_name@ == "meta"@,
            r.meta_ext@ == ".db"@,
            r.cache_size == 10000,
            r.flush_interval_ms == 5,
    {
        MasterConfig {
            listen_addr: default_master_listen(),
            meta_path: default_master_meta_path(),
            heartbeat_timeout_secs: default_heartbeat_timeout(),
            cleanup_interval_secs: default_cleanup_interval(),
            kv_name: default_kv_name(),
            kv_ext: default_kv_ext(),
            meta_name: default_meta_name(),
            meta_ext: default_meta_ext(),
            cache_size: default_cache_size(),
            flush_interval_ms: default_flush_interval(),
        }
    }
}

/// Worker node section.
#[derive(Debug, Clone)]
pub struct WorkerConfig {
    pub worker_id: String,
    pub listen_addr: String,
    pub master_addr: String,
    pub data_dir: String,
    pub kv_name: String,
    pub kv_ext: String,
    pub meta_name: String,
    pub meta_ext: String,
    pub cache_size: usize,
    pub flush_interval_ms: u64,
    pub heartbeat_interval_secs: u64,
    pub weight: i32,
    /// Quadkey region ("0" to "3") the worker serves.
    pub region: String,
    /// Master WebSocket address used for log shipping.
    pub master_ws_addr: String,
}

impl Default for WorkerConfig {
    fn default() -> (r: Self)
        ensures
            r.worker_id@ == "worker-1"@,
            r.listen_addr@ == "0.0.0.0:50061"@,
            r.master_addr@ == "http://127.0.0.1:50051"@,
            r.data_dir@ == "worker_data/worker-1"@,
            r.kv_name@ == "kv"@,
            r.kv_ext@ == ".db"@,
            r.meta_name@ == "meta"@,
            r.meta_ext@ == ".db"@,
            r.cache_size == 10000,
            r.flush_interval_ms == 5,
            r.heartbeat_interval_secs == 10,
            r.weight == 1,
            r.region@ == "0"@,
            r.master_ws_addr@ == "127.0.0.1:50053"@,
    {
        WorkerConfig {
            worker_id: default_worker_id(),
            listen_addr: default_worker_listen(),
            master_addr: default_master_addr(),
            data_dir: default_worker_data_dir(),
            kv_name: default_kv_name(),
            kv_ext: default_kv_ext(),
            meta_name: default_meta_name(),
            meta_ext: default_meta_ext(),
            cache_size: default_cache_size(),
            flush_interval_ms: default_flush_interval(),
            heartbeat_interval_secs: default_heartbeat_interval(),
            weight: default_weight(),
            region: default_region(),
            master_ws_addr: default_master_ws_addr(),
        }
    }
}

impl WorkerConfig {
    /// Full path of the KV database: the data directory joined with stem and extension.
    pub fn kv_path(&self) -> (p: String)
        ensures
            p@ == path_join(self.data_dir@, self.kv_name@ + self.kv_ext@),
    {
        let file = crate::text::concat2(self.kv_name.as_str(), self.kv_ext.as_str());
        crate::text::join_path(self.data_dir.as_str(), file.as_str())
    }

    /// Full path of the metadata database: the data directory joined with stem and extension.
    pub fn meta_path(&self) -> (p: String)
        ensures
            p@ == path_join(self.data_dir@, self.meta_name@ + self.meta_ext@),
    {
        let file = crate::text::concat2(self.meta_name.as_str(), self.meta_ext.as_str());
        crate::text::join_path(self.data_dir.as_str(), file.as_str())
    }
}

/// Standalone (single node) section.
#[derive(Debug, Clone)]
pub struct StandaloneConfig {
    pub kv_path: String,
    pub meta_path: String,
    pub cache_size: usize,
    pub flush_interval_ms: u64,
    pub http_port: u16,
    pub grpc_port: u16,
}

impl Default for StandaloneConfig {
    fn default() -> (r: Self)
        ensures
            r.kv_path@ == "data/kv.db"@,
            r.meta_path@ == "data/meta.db"@,
            r.cache_size == 10000,
            r.flush_interval_ms == 5,
            r.http_port == 8080,
            r.grpc_port == 50051,
    {
        StandaloneConfig {
            kv_path: default_standalone_kv_path(),
            meta_path: default_standalone_meta_path(),
            cache_size: default_cache_size(),
            flush_interval_ms: default_flush_interval(),
            http_port: default_http_port(),
            grpc_port: default_grpc_port(),
        }
    }
}

/// Hash-sharding section.
#[derive(Debug, Clone)]
pub struct ShardConfig {
    pub num_shards: usize,
    pub data_dir: String,
    /// File stem template; "{}" stands for the shard number.
    pub kv_name_template: String,
    pub kv_ext: String,
    pub meta_name_template: String,
    pub meta_ext: String,
    pub cache_size: usize,
    pub flush_interval_ms: u64,
}

impl Default for ShardConfig {
    fn default() -> (r: Self)
        ensures
            r.num_shards == 4,
            r.data_dir@ == "shard_data"@,
            r.kv_name_template@ == "kv_{}"@,
            r.kv_ext@ == ".db"@,
            r.meta_name_template@ == "meta_{}"@,
            r.meta_ext@ == ".db"@,
            r.cache_size == 10000,
            r.flush_interval_ms == 5,
    {
        ShardConfig {
            num_shards: default_num_shards(),
            data_dir: default_shard_data_dir(),
            kv_name_template: default_kv_name_template(),
            kv_ext: default_kv_ext(),
            meta_name_template: default_meta_name_template(),
            meta_ext: default_meta_ext(),
            cache_size: default_cache_size(),
            flush_interval_ms: default_flush_interval(),
        }
    }
}

/// Quadkey sharding section.
#[derive(Debug, Clone)]
pub struct QuadShardConfig {
    /// Levels up to this one store into the shared "base" database.
    pub base_level: u32,
    /// Below this level a four-character prefix names the database, from it on eight.
    pub split_level: u32,
    pub data_dir: String,
    pub data_type: String,
    pub kv_ext: String,
    pub meta_ext: String,
    pub cache_size: usize,
    pub flush_interval_ms: u64,
}

impl Default for QuadShardConfig {
    fn default() -> (r: Self)
        ensures
            r.base_level == 8,
            r.split_level == 18,
            r.data_dir@ == "quad_data"@,
            r.data_type@ == "objects"@,
            r.kv_ext@ == ".db"@,
            r.meta_ext@ == ".db"@,
            r.cache_size == 10000,
            r.flush_interval_ms == 5,
    {
        QuadShardConfig {
            base_level: default_base_level(),
            split_level: default_split_level(),
            data_dir: default_quad_data_dir(),
            data_type: default_quad_data_type(),
            kv_ext: default_kv_ext(),
            meta_ext: default_meta_ext(),
            cache_size: default_cache_size(),
            flush_interval_ms: default_flush_interval(),
        }
    }
}

/// Settings the master hands to every worker when it registers.
#[derive(Debug, Clone)]
pub struct WorkerDefaultsConfig {
    pub kv_ext: String,
    pub meta_ext: String,
    pub cache_size: usize,
    pub flush_interval_ms: u64,
    pub heartbeat_interval_secs: u64,
    pub weight: i32,
    pub quad_shard: QuadShardConfig,
}

impl Default for WorkerDefaultsConfig {
    fn default() -> (r: Self)
        ensures
            r.kv_ext@ == ".db"@,
            r.meta_ext@ == ".db"@,
            r.cache_size == 10000,
            r.flush_interval_ms == 5,
            r.heartbeat_interval_secs == 10,
            r.weight == 1,
            r.quad_shard.base_level == 8,
            r.quad_shard.split_level == 18,
    {
        WorkerDefaultsConfig {
            kv_ext: default_kv_ext(),
            meta_ext: default_meta_ext(),
            cache_size: default_cache_size(),
            flush_interval_ms: default_flush_interval(),
            heartbeat_interval_secs: default_heartbeat_interval(),
            weight: default_weight(),
            quad_shard: QuadShardConfig::default(),
        }
    }
}

/// The whole configuration file.
#[derive(Debug, Clone)]
pub struct AppConfig {
    /// "master", "worker" or "standalone".
    pub mode: String,
    pub global: GlobalConfig,
    pub master: MasterConfig,
    pub worker: WorkerConfig,
    pub standalone: StandaloneConfig,
    pub shard: ShardConfig,
    pub quad_shard: QuadShardConfig,
}

impl Default for AppConfig {
    fn default() -> (r: Self)
        ensures
            r.mode@ == "master"@,
            r.global.max_message_size == 268435456,
            r.global.protocol@ == "both"@,
            r.master.listen_addr@ == "0.0.0.0:50051"@,
            r.master.heartbeat_timeout_secs == 30,
            r.worker.worker_id@ == "worker-1"@,
            r.worker.data_dir@ == "worker_data/worker-1"@,
            r.standalone.http_port == 8080,
            r.standalone.grpc_port == 50051,
            r.shard.num_shards == 4,
            r.quad_shard.base_level == 8,
            r.quad_shard.split_level == 18,
    {
        AppConfig {
            mode: default_mode(),
            global: GlobalConfig::default(),
            master: MasterConfig::default(),
            worker: WorkerConfig::default(),
            standalone: StandaloneConfig::default(),
            shard: ShardConfig::default(),
            quad_shard: QuadShardConfig::default(),
        }
    }
}

} // verus!
