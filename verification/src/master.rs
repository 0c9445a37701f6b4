//! The master's control plane: the registry of workers, the assignment of
//! quadkey regions, dead-worker detection, and routing of keys to workers
//! by rendezvous hashing or by quadkey region.

use crate::config::{QuadShardConfig, WorkerDefaultsConfig};
use crate::error::StoreError;
use crate::meta::ObjectMeta;
use crate::hashing::{seahash_of, seahash_str};
use crate::listing::{bytes_lt, key_lt, lemma_bytes_lt_irreflexive, lemma_bytes_lt_total, lemma_bytes_lt_transitive};
use crate::store::copy_string;
use vstd::prelude::*;
use vstd::utf8::encode_utf8;

verus! {

/// Master node settings.
#[derive(Debug, Clone)]
pub struct MasterConfig {
    pub listen_addr: String,
    /// Path of the database holding the worker registry and routing tables.
    pub meta_path: String,
    /// Seconds without a heartbeat after which a worker counts as dead.
    pub heartbeat_timeout_secs: u64,
    pub cleanup_interval_secs: u64,
    /// Directory of the buffer that keeps writes for unreachable regions.
    pub pending_data_dir: String,
    pub pending_gc_interval_secs: u64,
    pub pending_flush_timeout_secs: u64,
}

impl Default for MasterConfig {
    fn default() -> (r: Self)
        ensures
            r.listen_addr@ == "0.0.0.0:50051"@,
            r.meta_path@ == "master_data/master.db"@,
            r.heartbeat_timeout_secs == 30,
            r.cleanup_interval_secs == 60,
            r.pending_data_dir@ == "master_data/pending"@,
            r.pending_gc_interval_secs == 60,
            r.pending_flush_timeout_secs == 60,
    {
        MasterConfig {
            listen_addr: "0.0.0.0:50051".to_owned(),
            meta_path: "master_data/master.db".to_owned(),
            heartbeat_timeout_secs: 30,
            cleanup_interval_secs: 60,
            pending_data_dir: "master_data/pending".to_owned(),
            pending_gc_interval_secs: 60,
            pending_flush_timeout_secs: 60,
        }
    }
}

/// What the master knows of a worker for routing.
#[derive(Debug, Clone)]
pub struct WorkerEntry {
    pub worker_id: String,
    pub address: String,
    pub weight: i32,
    pub alive: bool,
    /// Unix seconds of the last heartbeat.
    pub last_heartbeat: i64,
    /// Quadkey region ("0" to "3") the worker serves.
    pub region: String,
}

/// Configuration the master hands a worker when it registers.
#[derive(Debug, Clone)]
pub struct WorkerConfigPayload {
    pub config_version: u64,
    pub region: String,
    pub kv_ext: String,
    pub meta_ext: String,
    pub cache_size: usize,
    pub flush_interval_ms: u64,
    pub heartbeat_interval_secs: u64,
    pub weight: i32,
    pub quad_shard: QuadShardConfig,
}

/// Two entries with the same contents.
pub open spec fn same_entry(a: WorkerEntry, b: WorkerEntry) -> bool {
    &&& a.worker_id@ == b.worker_id@
    &&& a.address@ == b.address@
    &&& a.weight == b.weight
    &&& a.alive == b.alive
    &&& a.last_heartbeat == b.last_heartbeat
    &&& a.region@ == b.region@
}

/// A copy of an entry.
pub fn copy_entry(w: &WorkerEntry) -> (r: WorkerEntry)
    ensures
        same_entry(r, *w),
{
    WorkerEntry {
        worker_id: copy_string(&w.worker_id),
        address: copy_string(&w.address),
        weight: w.weight,
        alive: w.alive,
        last_heartbeat: w.last_heartbeat,
        region: copy_string(&w.region),
    }
}

/// A copy of quadkey shard settings.
pub fn copy_quad_shard(q: &QuadShardConfig) -> (r: QuadShardConfig)
    ensures
        r.base_level == q.base_level,
        r.split_level == q.split_level,
        r.data_dir@ == q.data_dir@,
        r.data_type@ == q.data_type@,
        r.kv_ext@ == q.kv_ext@,
        r.meta_ext@ == q.meta_ext@,
        r.cache_size == q.cache_size,
        r.flush_interval_ms == q.flush_interval_ms,
{
    QuadShardConfig {
        base_level: q.base_level,
        split_level: q.split_level,
        data_dir: copy_string(&q.data_dir),
        data_type: copy_string(&q.data_type),
        kv_ext: copy_string(&q.kv_ext),
        meta_ext: copy_string(&q.meta_ext),
        cache_size: q.cache_size,
        flush_interval_ms: q.flush_interval_ms,
    }
}

/// The rendezvous score of a worker for a key: the SeaHash of the key, a NUL
/// character and the worker id.
pub open spec fn route_score(key: Seq<char>, worker_id: Seq<char>) -> u64 {
    seahash_of(encode_utf8(key + seq!['\0'] + worker_id))
}

/// The bytes worker ids are ordered by.
pub open spec fn id_bytes(w: WorkerEntry) -> Seq<u8> {
    encode_utf8(w.worker_id@)
}

/// No two entries share a worker id.
pub open spec fn unique_ids(ws: Seq<WorkerEntry>) -> bool {
    forall|i: int, j: int| 0 <= i < j < ws.len() ==> ws[i].worker_id@ != ws[j].worker_id@
}

/// The region a quadkey belongs to: its first character, or "0" for an empty key.
pub open spec fn region_of(quadkey: Seq<char>) -> Seq<char> {
    if quadkey.len() == 0 {
        seq!['0']
    } else {
        seq![quadkey[0]]
    }
}

/// The region a quadkey belongs to: its first character, or "0" when it is
/// empty. The first character must be a single byte, as slicing the first
/// byte off requires.
pub fn quadkey_region(quadkey: &str) -> (r: String)
    requires
        quadkey@.len() > 0 ==> (quadkey@[0] as u32) < 128,
    ensures
        r@ == region_of(quadkey@),
{
    if quadkey.unicode_len() == 0 {
        proof { reveal_strlit("0"); }
        "0".to_owned()
    } else {
        quadkey.substring_char(0, 1).to_owned()
    }
}

/// The score of `worker_id` for `key`.
pub fn score_of(key: &str, worker_id: &str) -> (h: u64)
    ensures
        h == route_score(key@, worker_id@),
{
    proof { reveal_strlit("\0"); }
    let input = crate::text::concat3(key, "\0", worker_id);
    assert("\0"@ =~= seq!['\0']);
    assert(input@ == key@ + seq!['\0'] + worker_id@);
    seahash_str(input.as_str())
}

/// The region assigned to `worker_id`: the first pair naming it.
pub open spec fn assigned_region(regions: Seq<(String, String)>, worker_id: Seq<char>) -> Option<Seq<char>>
    decreases regions.len(),
{
    if regions.len() == 0 {
        None
    } else if regions[0].0@ == worker_id {
        Some(regions[0].1@)
    } else {
        assigned_region(regions.drop_first(), worker_id)
    }
}

/// The worker list after `w` is registered: an entry with the same id is
/// replaced in place, otherwise `w` is appended.
pub open spec fn upserted(ws: Seq<WorkerEntry>, w: WorkerEntry) -> Seq<WorkerEntry> {
    if exists|i: int| 0 <= i < ws.len() && ws[i].worker_id@ == w.worker_id@ {
        ws.update(choose|i: int| 0 <= i < ws.len() && ws[i].worker_id@ == w.worker_id@, w)
    } else {
        ws.push(w)
    }
}

/// The registry built from `entries` in order, each upserted in turn.
pub open spec fn registry(entries: Seq<WorkerEntry>) -> Seq<WorkerEntry>
    decreases entries.len(),
{
    if entries.len() == 0 {
        Seq::empty()
    } else {
        upserted(registry(entries.drop_last()), entries.last())
    }
}

/// The entries of `ws` that a listing shows, in order: all of them, or only
/// the alive ones.
pub open spec fn listed(ws: Seq<WorkerEntry>, only_alive: bool) -> Seq<WorkerEntry>
    decreases ws.len(),
{
    if ws.len() == 0 {
        Seq::empty()
    } else if !only_alive || ws.last().alive {
        listed(ws.drop_last(), only_alive).push(ws.last())
    } else {
        listed(ws.drop_last(), only_alive)
    }
}

/// `w` is where `key` is routed among `ws`: an alive worker of `ws` with
/// the highest rendezvous score for the key, and among equal scores the one
/// whose id orders last.
pub open spec fn route_choice(ws: Seq<WorkerEntry>, key: Seq<char>, w: WorkerEntry) -> bool {
    &&& exists|i: int| 0 <= i < ws.len() && (#[trigger] ws[i]).alive && same_entry(ws[i], w)
    &&& forall|i: int| 0 <= i < ws.len() && (#[trigger] ws[i]).alive ==>
        route_score(key, ws[i].worker_id@) <= route_score(key, w.worker_id@)
    &&& forall|i: int| 0 <= i < ws.len() && (#[trigger] ws[i]).alive
        && route_score(key, ws[i].worker_id@) == route_score(key, w.worker_id@) ==>
        !bytes_lt(encode_utf8(w.worker_id@), id_bytes(ws[i]))
}

/// `after` is `before` with some workers marked dead and nothing else changed.
pub open spec fn only_failures(before: Seq<WorkerEntry>, after: Seq<WorkerEntry>) -> bool {
    &&& after.len() == before.len()
    &&& forall|i: int| 0 <= i < before.len() ==> {
        let (a, b) = (#[trigger] before[i], after[i]);
        &&& (b.alive ==> a.alive)
        &&& b.worker_id == a.worker_id
        &&& b.address == a.address
        &&& b.weight == a.weight
        &&& b.last_heartbeat == a.last_heartbeat
        &&& b.region == a.region
    }
}

/// Whether `skip` names index `j`.
pub open spec fn skips(skip: Option<usize>, j: int) -> bool {
    skip matches Some(s) && s == j
}

/// Whether a worker whose last heartbeat was at `last` counts as dead at
/// `now`: the elapsed seconds, computed with wrap-around, exceed the timeout
/// taken as a signed number.
pub open spec fn heartbeat_expired(now: i64, last: i64, timeout_secs: u64) -> bool {
    now.wrapping_sub(last) > (timeout_secs as i64)
}

/// The master's in-memory control plane.
pub struct MasterNode {
    config: MasterConfig,
    /// "grpc", "restful", "ws" or "both".
    protocol: String,
    workers: Vec<WorkerEntry>,
    worker_defaults: WorkerDefaultsConfig,
    worker_regions: Vec<(String, String)>,
    config_version: u64,
}

impl MasterNode {
    /// The node's settings.
    pub closed spec fn settings(&self) -> MasterConfig {
        self.config
    }

    /// The master-to-worker protocol.
    pub closed spec fn protocol_name(&self) -> Seq<char> {
        self.protocol@
    }

    /// The settings handed to registering workers.
    pub closed spec fn defaults(&self) -> WorkerDefaultsConfig {
        self.worker_defaults
    }

    /// The node's settings.
    pub fn config(&self) -> (c: &MasterConfig)
        ensures
            *c == self.settings(),
    {
        &self.config
    }

    /// The master-to-worker protocol: "grpc", "restful", "ws" or "both".
    pub fn protocol(&self) -> (p: &String)
        ensures
            p@ == self.protocol_name(),
    {
        &self.protocol
    }

    /// The settings handed to registering workers.
    pub fn worker_defaults(&self) -> (d: &WorkerDefaultsConfig)
        ensures
            *d == self.defaults(),
    {
        &self.worker_defaults
    }

    /// The registered workers.
    pub closed spec fn workers(&self) -> Seq<WorkerEntry> {
        self.workers@
    }

    /// The region assignment, worker id to region.
    pub closed spec fn regions(&self) -> Seq<(String, String)> {
        self.worker_regions@
    }

    /// The configuration version.
    pub closed spec fn version(&self) -> u64 {
        self.config_version
    }

    /// Registered workers have distinct ids.
    pub closed spec fn wf(&self) -> bool {
        unique_ids(self.workers@)
    }

    /// Opens the control plane with the workers the registry database holds
    /// (a later entry for an id replaces an earlier one), default worker
    /// settings, and no region assignment; the configuration version is 1.
    pub fn open_with_protocol(config: MasterConfig, protocol: &str, initial: Vec<WorkerEntry>) -> (m: Self)
        ensures
            m.wf(),
            m.settings() == config,
            m.protocol_name() == protocol@,
            m.version() == 1,
            m.regions().len() == 0,
            m.workers() == registry(initial@),
    {
        let mut node = MasterNode {
            config,
            protocol: protocol.to_owned(),
            workers: Vec::new(),
            worker_defaults: WorkerDefaultsConfig::default(),
            worker_regions: Vec::new(),
            config_version: 1,
        };
        let ghost ws = initial@;
        let mut workers = initial;
        let total = workers.len();
        let mut n: usize = 0;
        assert(ws.take(0) =~= Seq::<WorkerEntry>::empty());
        while n < total
            invariant
                total == ws.len(),
                n <= total,
                workers@ == ws.skip(n as int),
                node.wf(),
                node.config == config,
                node.protocol@ == protocol@,
                node.config_version == 1,
                node.worker_regions@.len() == 0,
                node.workers@ == registry(ws.take(n as int)),
            decreases total - n,
        {
            assert(ws.skip(n as int)[0] == ws[n as int]);
            let w = workers.remove(0);
            assert(workers@ =~= ws.skip(n + 1));
            node.upsert(w);
            assert(ws.take(n + 1).drop_last() =~= ws.take(n as int));
            n = n + 1;
        }
        assert(ws.take(total as int) =~= ws);
        node
    }

    /// `open_with_protocol` with protocol "both".
    pub fn open(config: MasterConfig, workers: Vec<WorkerEntry>) -> (m: Self)
        ensures
            m.wf(),
            m.settings() == config,
            m.protocol_name() == "both"@,
            m.version() == 1,
            m.regions().len() == 0,
            m.workers() == registry(workers@),
    {
        proof { reveal_strlit("both"); }
        Self::open_with_protocol(config, "both", workers)
    }

    /// Opens the control plane with the settings it hands to registering
    /// workers and the region assigned to each worker id.
    pub fn open_with_worker_defaults(
        config: MasterConfig,
        protocol: &str,
        worker_defaults: WorkerDefaultsConfig,
        worker_regions: Vec<(String, String)>,
        workers: Vec<WorkerEntry>,
    ) -> (m: Self)
        ensures
            m.wf(),
            m.settings() == config,
            m.protocol_name() == protocol@,
            m.version() == 1,
            m.defaults() == worker_defaults,
            m.regions() == worker_regions@,
            m.workers() == registry(workers@),
    {
        let mut node = Self::open_with_protocol(config, protocol, workers);
        node.worker_defaults = worker_defaults;
        node.worker_regions = worker_regions;
        node
    }

    /// The largest message the master accepts: 256 MiB.
    pub fn get_max_message_size(&self) -> (n: usize)
        ensures
            n == 268435456,
    {
        268435456
    }

    /// The current configuration version.
    pub fn config_version(&self) -> (v: u64)
        ensures
            v == self.version(),
    {
        self.config_version
    }

    /// Advances the configuration version by one (wrapping) and returns the
    /// new version.
    pub fn bump_config_version(&mut self) -> (v: u64)
        ensures
            v == old(self).version().wrapping_add(1),
            final(self).version() == v,
            final(self).workers() == old(self).workers(),
            final(self).regions() == old(self).regions(),
            final(self).wf() == old(self).wf(),
    {
        self.config_version = self.config_version.wrapping_add(1);
        self.config_version
    }

    fn find_worker(&self, worker_id: &str) -> (r: Option<usize>)
        ensures
            match r {
                Some(i) => i < self.workers@.len() && self.workers@[i as int].worker_id@ == worker_id@,
                None => forall|i: int| 0 <= i < self.workers@.len() ==> self.workers@[i].worker_id@ != worker_id@,
            },
    {
        let mut i: usize = 0;
        while i < self.workers.len()
            invariant
                i <= self.workers@.len(),
                forall|j: int| 0 <= j < i ==> self.workers@[j].worker_id@ != worker_id@,
            decreases self.workers@.len() - i,
        {
            if crate::text::str_eq(self.workers[i].worker_id.as_str(), worker_id) {
                return Some(i);
            }
            i = i + 1;
        }
        None
    }

    fn upsert(&mut self, w: WorkerEntry)
        requires
            old(self).wf(),
        ensures
            final(self).wf(),
            final(self).config == old(self).config,
            final(self).protocol == old(self).protocol,
            final(self).config_version == old(self).config_version,
            final(self).worker_regions == old(self).worker_regions,
            final(self).worker_defaults == old(self).worker_defaults,
            final(self).workers@ == upserted(old(self).workers@, w),
            exists|j: int| 0 <= j < final(self).workers@.len() && same_entry(#[trigger] final(self).workers@[j], w),
            forall|j: int| 0 <= j < final(self).workers@.len() ==> same_entry(#[trigger] final(self).workers@[j], w)
                || (j < old(self).workers@.len() && final(self).workers@[j] == old(self).workers@[j]),
    {
        let ghost ws = self.workers@;
        match self.find_worker(w.worker_id.as_str()) {
            Some(i) => {
                let ghost c = choose|c: int| 0 <= c < ws.len() && ws[c].worker_id@ == w.worker_id@;
                assert(c == i) by {
                    if c != i as int {
                        assert(ws[c].worker_id@ == ws[i as int].worker_id@);
                    }
                }
                self.workers.set(i, w);
                assert(same_entry(self.workers@[i as int], w));
            },
            None => {
                self.workers.push(w);
                assert(same_entry(self.workers@[ws.len() as int], w));
            },
        }
    }

    /// The region assigned to `worker_id`, if any.
    pub fn region_for(&self, worker_id: &str) -> (r: Option<String>)
        ensures
            match r {
                Some(s) => assigned_region(self.regions(), worker_id@) == Some(s@),
                None => assigned_region(self.regions(), worker_id@) is None,
            },
    {
        let mut i: usize = 0;
        let ghost rs = self.worker_regions@;
        assert(rs.skip(0) =~= rs);
        while i < self.worker_regions.len()
            invariant
                rs == self.worker_regions@,
                i <= rs.len(),
                assigned_region(rs, worker_id@) == assigned_region(rs.skip(i as int), worker_id@),
            decreases rs.len() - i,
        {
            assert(rs.skip(i as int).drop_first() =~= rs.skip(i + 1));
            assert(rs.skip(i as int)[0] == rs[i as int]);
            if crate::text::str_eq(self.worker_regions[i].0.as_str(), worker_id) {
                return Some(copy_string(&self.worker_regions[i].1));
            }
            i = i + 1;
        }
        None
    }

    /// Registers a worker: the master assigns its region from the region
    /// table (a worker it has none for is refused), records it as alive with
    /// a heartbeat at `now`, and returns the configuration the worker runs
    /// with.
    pub fn register_worker(&mut self, worker_id: &str, address: &str, weight: i32, now: i64) -> (r: Result<WorkerConfigPayload, StoreError>)
        requires
            old(self).wf(),
        ensures
            final(self).wf(),
            final(self).version() == old(self).version(),
            final(self).regions() == old(self).regions(),
            match assigned_region(old(self).regions(), worker_id@) {
                None => (r matches Err(StoreError::InvalidArgument(m))
                    && m@ == "Worker '"@ + worker_id@ + "' 未在 master.yaml 的 worker_regions 中配置，拒绝注册"@)
                    && final(self).workers() == old(self).workers(),
                Some(region) => r matches Ok(p) && {
                    &&& p.region@ == region
                    &&& p.config_version == old(self).version()
                    &&& p.kv_ext@ == old(self).defaults().kv_ext@
                    &&& p.meta_ext@ == old(self).defaults().meta_ext@
                    &&& p.cache_size == old(self).defaults().cache_size
                    &&& p.flush_interval_ms == old(self).defaults().flush_interval_ms
                    &&& p.heartbeat_interval_secs == old(self).defaults().heartbeat_interval_secs
                    &&& p.weight == weight
                    &&& p.quad_shard.base_level == old(self).defaults().quad_shard.base_level
                    &&& p.quad_shard.split_level == old(self).defaults().quad_shard.split_level
                    &&& exists|e: WorkerEntry| {
                        &&& final(self).workers() == upserted(old(self).workers(), e)
                        &&& e.worker_id@ == worker_id@
                        &&& e.address@ == address@
                        &&& e.weight == weight
                        &&& e.alive
                        &&& e.last_heartbeat == now
                        &&& e.region@ == region
                    }
                },
            },
    {
        let region = match self.region_for(worker_id) {
            Some(r) => r,
            None => {
                let msg = crate::text::concat3(
                    "Worker '",
                    worker_id,
                    "' 未在 master.yaml 的 worker_regions 中配置，拒绝注册",
                );
                return Err(StoreError::InvalidArgument(msg));
            },
        };
        let entry = WorkerEntry {
            worker_id: worker_id.to_owned(),
            address: address.to_owned(),
            weight,
            alive: true,
            last_heartbeat: now,
            region: copy_string(&region),
        };
        let ghost e = entry;
        self.upsert(entry);
        assert(self.workers() == upserted(old(self).workers(), e));
        let wd = &self.worker_defaults;
        Ok(WorkerConfigPayload {
            config_version: self.config_version,
            region,
            kv_ext: copy_string(&wd.kv_ext),
            meta_ext: copy_string(&wd.meta_ext),
            cache_size: wd.cache_size,
            flush_interval_ms: wd.flush_interval_ms,
            heartbeat_interval_secs: wd.heartbeat_interval_secs,
            weight,
            quad_shard: copy_quad_shard(&wd.quad_shard),
        })
    }

    /// Records a heartbeat from `worker_id` at `now`: a registered worker is
    /// marked alive with that heartbeat time and `true` is returned; an
    /// unknown worker changes nothing and gives `false`.
    pub fn heartbeat(&mut self, worker_id: &str, now: i64) -> (found: bool)
        requires
            old(self).wf(),
        ensures
            final(self).wf(),
            final(self).version() == old(self).version(),
            final(self).regions() == old(self).regions(),
            final(self).workers().len() == old(self).workers().len(),
            found == exists|i: int| 0 <= i < old(self).workers().len() && (#[trigger] old(self).workers()[i]).worker_id@ == worker_id@,
            forall|i: int| 0 <= i < old(self).workers().len() ==> {
                let (a, b) = (#[trigger] old(self).workers()[i], final(self).workers()[i]);
                if a.worker_id@ == worker_id@ {
                    &&& b.alive
                    &&& b.last_heartbeat == now
                    &&& b.worker_id == a.worker_id
                    &&& b.address == a.address
                    &&& b.weight == a.weight
                    &&& b.region == a.region
                } else {
                    b == a
                }
            },
    {
        match self.find_worker(worker_id) {
            Some(i) => {
                let ghost ws = self.workers@;
                let mut w = self.workers.remove(i);
                w.alive = true;
                w.last_heartbeat = now;
                self.workers.insert(i, w);
                assert(self.workers@ =~= ws.update(i as int, self.workers@[i as int]));
                assert(old(self).workers()[i as int].worker_id@ == worker_id@);
                assert forall|j: int| 0 <= j < ws.len() && j != i implies ws[j].worker_id@ != worker_id@ by {
                    assert(ws[j].worker_id@ != ws[i as int].worker_id@);
                }
                true
            },
            None => {
                assert(!exists|i: int| 0 <= i < old(self).workers().len() && (#[trigger] old(self).workers()[i]).worker_id@ == worker_id@);
                false
            },
        }
    }

    /// Marks every alive worker whose heartbeat has expired at `now` as dead.
    pub fn cleanup_dead_workers(&mut self, now: i64)
        requires
            old(self).wf(),
        ensures
            final(self).wf(),
            final(self).version() == old(self).version(),
            final(self).regions() == old(self).regions(),
            final(self).settings() == old(self).settings(),
            final(self).workers().len() == old(self).workers().len(),
            only_failures(old(self).workers(), final(self).workers()),
            forall|i: int| 0 <= i < old(self).workers().len() ==> {
                let (a, b) = (#[trigger] old(self).workers()[i], final(self).workers()[i]);
                &&& b.alive == (a.alive && !heartbeat_expired(now, a.last_heartbeat, old(self).settings().heartbeat_timeout_secs))
                &&& b.worker_id == a.worker_id
                &&& b.address == a.address
                &&& b.weight == a.weight
                &&& b.last_heartbeat == a.last_heartbeat
                &&& b.region == a.region
            },
    {
        #[verifier::truncate]
        let timeout = self.config.heartbeat_timeout_secs as i64;
        let ghost ws = self.workers@;
        let mut i: usize = 0;
        while i < self.workers.len()
            invariant
                ws.len() == self.workers@.len(),
                unique_ids(ws),
                i <= ws.len(),
                timeout == (self.config.heartbeat_timeout_secs as i64),
                self.config == old(self).config,
                self.config_version == old(self).config_version,
                self.worker_regions == old(self).worker_regions,
                ws == old(self).workers@,
                forall|j: int| 0 <= j < ws.len() ==> {
                    let (a, b) = (#[trigger] ws[j], self.workers@[j]);
                    &&& (j < i ==> b.alive == (a.alive && !heartbeat_expired(now, a.last_heartbeat, self.config.heartbeat_timeout_secs)))
                    &&& (j >= i ==> b.alive == a.alive)
                    &&& b.worker_id == a.worker_id
                    &&& b.address == a.address
                    &&& b.weight == a.weight
                    &&& b.last_heartbeat == a.last_heartbeat
                    &&& b.region == a.region
                },
            decreases ws.len() - i,
        {
            if self.workers[i].alive && now.wrapping_sub(self.workers[i].last_heartbeat) > timeout {
                let ghost cur = self.workers@;
                let mut w = self.workers.remove(i);
                w.alive = false;
                self.workers.insert(i, w);
                assert(self.workers@ =~= cur.update(i as int, self.workers@[i as int]));
            }
            i = i + 1;
        }
        assert(unique_ids(self.workers@)) by {
            assert forall|a: int, b: int| 0 <= a < b < self.workers@.len() implies self.workers@[a].worker_id@ != self.workers@[b].worker_id@ by {
                assert(self.workers@[a].worker_id == ws[a].worker_id);
                assert(self.workers@[b].worker_id == ws[b].worker_id);
            }
        }
    }

    /// The registered workers, or only the alive ones, in registry order.
    pub fn list_workers(&self, only_alive: bool) -> (r: Vec<WorkerEntry>)
        ensures
            r@.len() == listed(self.workers(), only_alive).len(),
            forall|j: int| 0 <= j < r@.len() ==> same_entry(#[trigger] r@[j], listed(self.workers(), only_alive)[j]),
    {
        let mut r: Vec<WorkerEntry> = Vec::new();
        let ghost ws = self.workers();
        let mut i: usize = 0;
        assert(ws.take(0) =~= Seq::<WorkerEntry>::empty());
        while i < self.workers.len()
            invariant
                ws == self.workers(),
                i <= ws.len(),
                r@.len() == listed(ws.take(i as int), only_alive).len(),
                forall|j: int| 0 <= j < r@.len() ==> same_entry(#[trigger] r@[j], listed(ws.take(i as int), only_alive)[j]),
            decreases ws.len() - i,
        {
            assert(ws.take(i + 1).drop_last() =~= ws.take(i as int));
            assert(ws.take(i + 1).last() == ws[i as int]);
            if !only_alive || self.workers[i].alive {
                r.push(copy_entry(&self.workers[i]));
            }
            i = i + 1;
        }
        assert(ws.take(i as int) =~= ws);
        r
    }

    /// Routes `key` by rendezvous hashing: among alive workers, the one with
    /// the highest score for the key; on a tie, the one whose id orders
    /// last. With no alive worker the request is refused.
    pub fn route(&self, key: &str) -> (r: Result<WorkerEntry, StoreError>)
        requires
            self.wf(),
        ensures
            (exists|i: int| 0 <= i < self.workers().len() && (#[trigger] self.workers()[i]).alive) <==> r is Ok,
            r matches Ok(w) ==> route_choice(self.workers(), key@, w),
            r is Err ==> (r matches Err(StoreError::InvalidArgument(m)) && m@ == "没有可用的 Worker 节点"@),
    {
        let ws = &self.workers;
        let mut best: Option<usize> = None;
        let mut best_score: u64 = 0;
        let mut i: usize = 0;
        while i < ws.len()
            invariant
                ws@ == self.workers(),
                i <= self.workers().len(),
                match best {
                    None => forall|j: int| 0 <= j < i ==> !(#[trigger] self.workers()[j]).alive,
                    Some(b) => {
                        &&& b < i
                        &&& self.workers()[b as int].alive
                        &&& best_score == route_score(key@, self.workers()[b as int].worker_id@)
                        &&& forall|j: int| 0 <= j < i && (#[trigger] self.workers()[j]).alive ==> route_score(key@, self.workers()[j].worker_id@) <= best_score
                        &&& forall|j: int| 0 <= j < i && (#[trigger] self.workers()[j]).alive && route_score(key@, self.workers()[j].worker_id@) == best_score ==>
                            !bytes_lt(id_bytes(self.workers()[b as int]), id_bytes(self.workers()[j]))
                    },
                },
            decreases self.workers().len() - i,
        {
            if ws[i].alive {
                let s = score_of(key, ws[i].worker_id.as_str());
                match best {
                    None => {
                        proof { lemma_bytes_lt_irreflexive(id_bytes(self.workers()[i as int])); }
                        best = Some(i);
                        best_score = s;
                    },
                    Some(b) => {
                        if s > best_score {
                            proof { lemma_bytes_lt_irreflexive(id_bytes(self.workers()[i as int])); }
                            best = Some(i);
                            best_score = s;
                        } else if s == best_score && key_lt(&ws[b].worker_id, &ws[i].worker_id) {
                            proof {
                                lemma_bytes_lt_irreflexive(id_bytes(self.workers()[i as int]));
                                assert forall|j: int| 0 <= j < i + 1 && (#[trigger] self.workers()[j]).alive && route_score(key@, self.workers()[j].worker_id@) == s implies
                                    !bytes_lt(id_bytes(self.workers()[i as int]), id_bytes(self.workers()[j])) by {
                                    if j < i && bytes_lt(id_bytes(self.workers()[i as int]), id_bytes(self.workers()[j])) {
                                        lemma_bytes_lt_transitive(id_bytes(self.workers()[b as int]), id_bytes(self.workers()[i as int]), id_bytes(self.workers()[j]));
                                    }
                                }
                            }
                            best = Some(i);
                        } else {
                            proof {
                                if s == best_score {
                                    assert(!bytes_lt(id_bytes(self.workers()[b as int]), id_bytes(self.workers()[i as int])));
                                }
                            }
                        }
                    },
                }
            }
            i = i + 1;
        }
        match best {
            Some(b) => {
                let w = copy_entry(&ws[b]);
                assert(same_entry(self.workers()[b as int], w));
                assert(self.workers()[b as int].alive);
                Ok(w)
            },
            None => {
                assert(!exists|i: int| 0 <= i < self.workers().len() && (#[trigger] self.workers()[i]).alive);
                Err(StoreError::InvalidArgument("没有可用的 Worker 节点".to_owned()))
            },
        }
    }

    /// Routes by quadkey region: an alive worker serving the region of the
    /// quadkey's first character ("0" for an empty quadkey), or a refusal
    /// naming the region when there is none.
    pub fn route_by_quadkey(&self, quadkey: &str) -> (r: Result<WorkerEntry, StoreError>)
        requires
            quadkey@.len() > 0 ==> (quadkey@[0] as u32) < 128,
        ensures
            (exists|i: int| 0 <= i < self.workers().len() && (#[trigger] self.workers()[i]).alive
                && self.workers()[i].region@ == region_of(quadkey@)) <==> r is Ok,
            r matches Ok(w) ==> exists|i: int| 0 <= i < self.workers().len() && (#[trigger] self.workers()[i]).alive
                && same_entry(self.workers()[i], w) && w.region@ == region_of(quadkey@),
            r is Err ==> (r matches Err(StoreError::InvalidArgument(m))
                && m@ == "quadkey 区域 '"@ + region_of(quadkey@) + "' 无可用 Worker"@),
    {
        let region = quadkey_region(quadkey);
        let mut i: usize = 0;
        while i < self.workers.len()
            invariant
                i <= self.workers().len(),
                region@ == region_of(quadkey@),
                forall|j: int| 0 <= j < i ==> !((#[trigger] self.workers()[j]).alive && self.workers()[j].region@ == region@),
            decreases self.workers().len() - i,
        {
            if self.workers[i].alive && crate::text::str_eq(self.workers[i].region.as_str(), region.as_str()) {
                let w = copy_entry(&self.workers[i]);
                assert(same_entry(self.workers()[i as int], w));
                assert(self.workers()[i as int].alive && self.workers()[i as int].region@ == region_of(quadkey@));
                return Ok(w);
            }
            i = i + 1;
        }
        assert(!exists|i: int| 0 <= i < self.workers().len() && (#[trigger] self.workers()[i]).alive
            && self.workers()[i].region@ == region_of(quadkey@));
        let msg = crate::text::concat3("quadkey 区域 '", region.as_str(), "' 无可用 Worker");
        Err(StoreError::InvalidArgument(msg))
    }

    fn best_alive_except(&self, key: &str, skip: Option<usize>) -> (r: Option<usize>)
        ensures
            match r {
                Some(b) => {
                    &&& b < self.workers().len()
                    &&& self.workers()[b as int].alive
                    &&& !skips(skip, b as int)
                    &&& forall|j: int| 0 <= j < self.workers().len() && (#[trigger] self.workers()[j]).alive && !skips(skip, j) ==>
                        route_score(key@, self.workers()[j].worker_id@) <= route_score(key@, self.workers()[b as int].worker_id@)
                },
                None => forall|j: int| 0 <= j < self.workers().len() && !skips(skip, j) ==> !(#[trigger] self.workers()[j]).alive,
            },
    {
        let ws = &self.workers;
        let mut best: Option<usize> = None;
        let mut best_score: u64 = 0;
        let mut i: usize = 0;
        while i < ws.len()
            invariant
                ws@ == self.workers(),
                i <= self.workers().len(),
                match best {
                    None => forall|j: int| 0 <= j < i && !skips(skip, j) ==> !(#[trigger] self.workers()[j]).alive,
                    Some(b) => {
                        &&& b < i
                        &&& self.workers()[b as int].alive
                        &&& !skips(skip, b as int)
                        &&& best_score == route_score(key@, self.workers()[b as int].worker_id@)
                        &&& forall|j: int| 0 <= j < i && (#[trigger] self.workers()[j]).alive && !skips(skip, j) ==> route_score(key@, self.workers()[j].worker_id@) <= best_score
                    },
                },
            decreases self.workers().len() - i,
        {
            if ws[i].alive && skip != Some(i) {
                assert(!skips(skip, i as int));
                let s = score_of(key, ws[i].worker_id.as_str());
                match best {
                    None => {
                        best = Some(i);
                        best_score = s;
                    },
                    Some(_) => {
                        if s > best_score {
                            best = Some(i);
                            best_score = s;
                        }
                    },
                }
            }
            i = i + 1;
        }
        best
    }

    /// Routes `key` to a primary and, when another worker is alive, a
    /// secondary replica: the primary has the highest rendezvous score among
    /// alive workers, the secondary the highest among the others.
    pub fn route_with_replicas(&self, key: &str) -> (r: Result<(WorkerEntry, Option<WorkerEntry>), StoreError>)
        requires
            self.wf(),
        ensures
            (exists|i: int| 0 <= i < self.workers().len() && (#[trigger] self.workers()[i]).alive) <==> r is Ok,
            r is Err ==> (r matches Err(StoreError::InvalidArgument(m)) && m@ == "没有可用的 Worker 节点"@),
            r matches Ok((p, s)) ==> {
                &&& exists|i: int| 0 <= i < self.workers().len() && (#[trigger] self.workers()[i]).alive && same_entry(self.workers()[i], p)
                &&& forall|i: int| 0 <= i < self.workers().len() && (#[trigger] self.workers()[i]).alive ==>
                    route_score(key@, self.workers()[i].worker_id@) <= route_score(key@, p.worker_id@)
                &&& (s is Some <==> exists|i: int| 0 <= i < self.workers().len() && (#[trigger] self.workers()[i]).alive
                    && self.workers()[i].worker_id@ != p.worker_id@)
                &&& s matches Some(w) ==> {
                    &&& w.worker_id@ != p.worker_id@
                    &&& exists|i: int| 0 <= i < self.workers().len() && (#[trigger] self.workers()[i]).alive && same_entry(self.workers()[i], w)
                    &&& forall|i: int| 0 <= i < self.workers().len() && (#[trigger] self.workers()[i]).alive
                        && self.workers()[i].worker_id@ != p.worker_id@ ==>
                        route_score(key@, self.workers()[i].worker_id@) <= route_score(key@, w.worker_id@)
                }
            },
    {
        match self.best_alive_except(key, None) {
            None => {
                assert(!exists|i: int| 0 <= i < self.workers().len() && (#[trigger] self.workers()[i]).alive);
                Err(StoreError::InvalidArgument("没有可用的 Worker 节点".to_owned()))
            },
            Some(p) => {
                let primary = copy_entry(&self.workers[p]);
                let ghost ws = self.workers();
                assert(same_entry(ws[p as int], primary));
                assert forall|j: int| 0 <= j < ws.len() && j != p implies ws[j].worker_id@ != ws[p as int].worker_id@ by {
                    if j < p {
                        assert(ws[j].worker_id@ != ws[p as int].worker_id@);
                    } else {
                        assert(ws[p as int].worker_id@ != ws[j].worker_id@);
                    }
                }
                let secondary = match self.best_alive_except(key, Some(p)) {
                    None => {
                        assert forall|i: int| 0 <= i < ws.len() && (#[trigger] ws[i]).alive implies ws[i].worker_id@ == primary.worker_id@ by {
                            if i != p as int {
                                assert(!skips(Some(p), i));
                            }
                        }
                        None
                    },
                    Some(q) => {
                        let w = copy_entry(&self.workers[q]);
                        assert(same_entry(ws[q as int], w));
                        assert(w.worker_id@ != primary.worker_id@);
                        assert forall|i: int| 0 <= i < ws.len() && (#[trigger] ws[i]).alive && ws[i].worker_id@ != primary.worker_id@
                            implies route_score(key@, ws[i].worker_id@) <= route_score(key@, w.worker_id@) by {
                            assert(i != p as int);
                            assert(!skips(Some(p), i));
                        }
                        Some(w)
                    },
                };
                Ok((primary, secondary))
            },
        }
    }
}

/// How the master talks to workers.
#[derive(Debug, Clone, Copy, PartialEq, Eq, Structural)]
pub enum MasterProtocol {
    Restful,
    Ws,
    /// gRPC, the protocol for every other name ("grpc", "both", ...).
    Grpc,
}

/// The protocol a protocol name selects.
pub open spec fn protocol_of(name: Seq<char>) -> MasterProtocol {
    if name == "restful"@ {
        MasterProtocol::Restful
    } else if name == "ws"@ {
        MasterProtocol::Ws
    } else {
        MasterProtocol::Grpc
    }
}

impl MasterNode {
    /// The protocol the master forwards requests with.
    pub fn protocol_kind(&self) -> (p: MasterProtocol)
        ensures
            p == protocol_of(self.protocol_name()),
    {
        proof {
            reveal_strlit("restful");
            reveal_strlit("ws");
        }
        if crate::text::str_eq(self.protocol.as_str(), "restful") {
            MasterProtocol::Restful
        } else if crate::text::str_eq(self.protocol.as_str(), "ws") {
            MasterProtocol::Ws
        } else {
            MasterProtocol::Grpc
        }
    }
}

/// A replica a request goes to.
#[derive(Debug, Clone, Copy, PartialEq, Eq, Hash, Structural)]
pub enum Replica {
    Primary,
    Secondary,
}

/// Where the first write of a replicated put goes: the primary when it can
/// be reached, else the secondary; with neither the put is refused.
pub fn first_write_target(primary_reachable: bool, has_secondary: bool) -> (r: Result<Replica, StoreError>)
    ensures
        primary_reachable ==> r == Ok::<Replica, StoreError>(Replica::Primary),
        !primary_reachable && has_secondary ==> r == Ok::<Replica, StoreError>(Replica::Secondary),
        !primary_reachable && !has_secondary ==> (r matches Err(StoreError::InvalidArgument(m)) && m@ == "主副本不可达且无备副本"@),
{
    if primary_reachable {
        Ok(Replica::Primary)
    } else if has_secondary {
        Ok(Replica::Secondary)
    } else {
        proof { reveal_strlit("主副本不可达且无备副本"); }
        Err(StoreError::InvalidArgument("主副本不可达且无备副本".to_owned()))
    }
}

/// After the first write failed with `error`: retry on the secondary, or,
/// without one, fail with the error.
pub fn retry_write_target(has_secondary: bool, error: &str) -> (r: Result<Replica, StoreError>)
    ensures
        has_secondary ==> r == Ok::<Replica, StoreError>(Replica::Secondary),
        !has_secondary ==> (r matches Err(StoreError::InvalidArgument(m)) && m@ == "主副本写入失败且无备副本: "@ + error@),
{
    if has_secondary {
        Ok(Replica::Secondary)
    } else {
        Err(StoreError::InvalidArgument(crate::text::concat2("主副本写入失败且无备副本: ", error)))
    }
}

/// The error of a put that failed on both replicas.
pub fn both_writes_failed(primary_error: &str, secondary_error: &str) -> (e: StoreError)
    ensures
        e matches StoreError::InvalidArgument(m)
            && m@ == "副本写入失败(主+备均失败, 主: "@ + primary_error@ + ", 备: "@ + secondary_error@ + ")"@,
{
    let head = crate::text::concat3("副本写入失败(主+备均失败, 主: ", primary_error, ", 备: ");
    let m = crate::text::concat3(head.as_str(), secondary_error, ")");
    StoreError::InvalidArgument(m)
}

/// Where a replicated put stands.
#[derive(Debug)]
pub enum PutPhase {
    /// Waiting for the key's replicas.
    Routing,
    /// Connecting to the primary for the first write.
    ConnectingPrimary,
    /// The primary could not be reached: connecting to the secondary instead.
    ConnectingFallback,
    /// The first write is on its way to this replica.
    Writing(Replica),
    /// The first write failed with this error: connecting to the secondary
    /// to write there.
    ConnectingRetry(String),
    /// The write to the secondary is on its way; the first write's error is
    /// kept for the report should this one fail too.
    Retrying(String),
    /// The write succeeded; the write to the other replica is being started.
    Replicating,
    /// The put has ended.
    Finished,
}

/// A replicated put in progress: the request, the phase, and what routing
/// found (whether there is a secondary, the metadata of the object).
#[derive(Debug)]
pub struct PutState {
    pub key: String,
    pub size: u64,
    pub content_type: Option<String>,
    pub tags: Option<String>,
    /// The time the put is stamped with.
    pub now: String,
    pub phase: PutPhase,
    pub has_secondary: bool,
    /// The metadata of the object, once the primary is known.
    pub meta: Option<ObjectMeta>,
}

/// What happened since the last step.
#[derive(Debug)]
pub enum PutEvent {
    /// Routing answered: the primary's id and whether a secondary exists,
    /// or why there is no replica.
    Routed(Result<(String, bool), StoreError>),
    /// Connecting to a replica succeeded or failed.
    Connected(Replica, Result<(), StoreError>),
    /// A write to a replica succeeded or failed with the worker's message.
    Written(Replica, Result<(), String>),
    /// The write to the other replica was started in the background.
    Spawned,
}

/// What the caller does next.
#[derive(Debug)]
pub enum PutAction {
    /// Connect to this replica.
    Connect(Replica),
    /// Send the object to this replica and wait for its answer.
    Send(Replica),
    /// Start writing the object to this replica in the background, without
    /// waiting for it.
    SpawnAsync(Replica),
    /// The put is over with this result.
    Done(Result<ObjectMeta, StoreError>),
    /// The event does not belong to the current phase: nothing to do.
    Ignore,
}

impl PutState {
    /// A put of `size` bytes under `key`, stamped `now`, before routing.
    pub fn new(key: String, size: u64, content_type: Option<String>, tags: Option<String>, now: String) -> (s: Self)
        ensures
            s.key == key,
            s.size == size,
            s.content_type == content_type,
            s.tags == tags,
            s.now == now,
            s.phase is Routing,
            !s.has_secondary,
            s.meta is None,
    {
        PutState { key, size, content_type, tags, now, phase: PutPhase::Routing, has_secondary: false, meta: None }
    }
}

/// `m` is the metadata of the put `s` stored on the primary `primary`.
pub open spec fn routed_meta(m: ObjectMeta, s: PutState, primary: Seq<char>) -> bool {
    &&& m.key@ == s.key@
    &&& m.size == s.size
    &&& m.created_at@ == s.now@
    &&& m.updated_at@ == s.now@
    &&& crate::store::opt_view(m.content_type) == crate::store::opt_view(s.content_type)
    &&& crate::store::opt_view(m.tags) == crate::store::opt_view(s.tags)
    &&& m.checksum is None
    &&& m.storage_node matches Some(n) && n@ == primary
}

/// `n` is `s` in phase `phase`, with the request and what routing found kept.
pub open spec fn moved_to(s: PutState, n: PutState, phase: PutPhase) -> bool {
    &&& n.key == s.key
    &&& n.size == s.size
    &&& n.content_type == s.content_type
    &&& n.tags == s.tags
    &&& n.now == s.now
    &&& n.has_secondary == s.has_secondary
    &&& n.meta == s.meta
    &&& n.phase == phase
}

/// `n` ends the put `s`: finished, its metadata handed out.
pub open spec fn finished_from(s: PutState, n: PutState) -> bool {
    &&& n.key == s.key
    &&& n.size == s.size
    &&& n.content_type == s.content_type
    &&& n.tags == s.tags
    &&& n.now == s.now
    &&& n.has_secondary == s.has_secondary
    &&& n.meta is None
    &&& n.phase is Finished
}

/// `a` ends the put with the error `InvalidArgument(msg)`.
pub open spec fn fails_with(a: PutAction, msg: Seq<char>) -> bool {
    a matches PutAction::Done(Err(StoreError::InvalidArgument(m))) && m@ == msg
}

/// The replica a successful write on `written` is copied to in the
/// background: after the primary, the secondary (when there is one); after
/// the secondary, the primary, which could not take the write.
pub open spec fn async_replica(written: Replica, has_secondary: bool) -> Option<Replica> {
    match written {
        Replica::Primary => if has_secondary { Some(Replica::Secondary) } else { None },
        Replica::Secondary => Some(Replica::Primary),
    }
}

/// The step after a successful write on `written`: the background write
/// to the other replica when there is one, else the end with the metadata.
pub open spec fn after_write(s: PutState, n: PutState, a: PutAction, written: Replica) -> bool {
    match async_replica(written, s.has_secondary) {
        Some(other) => moved_to(s, n, PutPhase::Replicating) && a == PutAction::SpawnAsync(other),
        None => match s.meta {
            Some(m) => finished_from(s, n) && a == PutAction::Done(Ok(m)),
            None => moved_to(s, n, s.phase) && a is Ignore,
        },
    }
}

/// One step of a replicated put: write to the primary first; when it
/// cannot be reached, or the write fails, write to the secondary once
/// (without a secondary the put fails); once a write succeeds, start the
/// write to the other replica in the background and end with the object's
/// metadata. An event that does not belong to the phase changes nothing.
pub open spec fn put_step(s: PutState, ev: PutEvent, r: (PutState, PutAction)) -> bool {
    let (n, a) = r;
    match (s.phase, ev) {
        (PutPhase::Routing, PutEvent::Routed(Err(e))) => moved_to(s, n, PutPhase::Finished) && a == PutAction::Done(Err(e)),
        (PutPhase::Routing, PutEvent::Routed(Ok((primary, has_sec)))) => {
            &&& n.key == s.key && n.size == s.size && n.content_type == s.content_type && n.tags == s.tags && n.now == s.now
            &&& n.has_secondary == has_sec
            &&& n.meta matches Some(m) && routed_meta(m, s, primary@)
            &&& n.phase is ConnectingPrimary
            &&& a == PutAction::Connect(Replica::Primary)
        },
        (PutPhase::ConnectingPrimary, PutEvent::Connected(Replica::Primary, Ok(()))) =>
            moved_to(s, n, PutPhase::Writing(Replica::Primary)) && a == PutAction::Send(Replica::Primary),
        (PutPhase::ConnectingPrimary, PutEvent::Connected(Replica::Primary, Err(_))) => if s.has_secondary {
            moved_to(s, n, PutPhase::ConnectingFallback) && a == PutAction::Connect(Replica::Secondary)
        } else {
            moved_to(s, n, PutPhase::Finished) && fails_with(a, "主副本不可达且无备副本"@)
        },
        (PutPhase::ConnectingFallback, PutEvent::Connected(Replica::Secondary, Ok(()))) =>
            moved_to(s, n, PutPhase::Writing(Replica::Secondary)) && a == PutAction::Send(Replica::Secondary),
        (PutPhase::ConnectingFallback, PutEvent::Connected(Replica::Secondary, Err(e))) =>
            moved_to(s, n, PutPhase::Finished) && a == PutAction::Done(Err(e)),
        (PutPhase::Writing(w), PutEvent::Written(x, Ok(()))) if w == x => after_write(s, n, a, w),
        (PutPhase::Writing(w), PutEvent::Written(x, Err(e))) if w == x => if s.has_secondary {
            moved_to(s, n, PutPhase::ConnectingRetry(e)) && a == PutAction::Connect(Replica::Secondary)
        } else {
            moved_to(s, n, PutPhase::Finished) && fails_with(a, "主副本写入失败且无备副本: "@ + e@)
        },
        (PutPhase::ConnectingRetry(e), PutEvent::Connected(Replica::Secondary, Ok(()))) =>
            moved_to(s, n, PutPhase::Retrying(e)) && a == PutAction::Send(Replica::Secondary),
        (PutPhase::ConnectingRetry(_), PutEvent::Connected(Replica::Secondary, Err(ce))) =>
            moved_to(s, n, PutPhase::Finished) && a == PutAction::Done(Err(ce)),
        (PutPhase::Retrying(_), PutEvent::Written(Replica::Secondary, Ok(()))) => after_write(s, n, a, Replica::Secondary),
        (PutPhase::Retrying(e1), PutEvent::Written(Replica::Secondary, Err(e2))) =>
            moved_to(s, n, PutPhase::Finished) && fails_with(a, "副本写入失败(主+备均失败, 主: "@ + e1@ + ", 备: "@ + e2@ + ")"@),
        (PutPhase::Replicating, PutEvent::Spawned) => match s.meta {
            Some(m) => finished_from(s, n) && a == PutAction::Done(Ok(m)),
            None => moved_to(s, n, s.phase) && a is Ignore,
        },
        _ => moved_to(s, n, s.phase) && a is Ignore,
    }
}

/// Once a write to a replica has succeeded, the put does not fail: the
/// step either starts the background copy to the other replica or ends with
/// the object's metadata.
pub proof fn law_successful_write_never_fails(s: PutState, ev: PutEvent, r: (PutState, PutAction))
    requires
        put_step(s, ev, r),
        s.meta is Some,
        (s.phase matches PutPhase::Writing(w) && ev matches PutEvent::Written(x, Ok(())) && w == x)
            || (s.phase is Retrying && ev matches PutEvent::Written(Replica::Secondary, Ok(())))
            || (s.phase is Replicating && ev is Spawned),
    ensures
        r.1 is SpawnAsync || r.1 == PutAction::Done(Ok(s.meta->0)),
        !(r.1 matches PutAction::Done(Err(_))),
{
}

/// A put with a single alive worker that takes the write ends with the
/// metadata routing gave it: the key, the size and the time of the request,
/// stored on that worker.
pub proof fn law_single_replica_put_succeeds(
    s0: PutState,
    primary: String,
    r1: (PutState, PutAction),
    r2: (PutState, PutAction),
    r3: (PutState, PutAction),
)
    requires
        s0.phase is Routing,
        put_step(s0, PutEvent::Routed(Ok((primary, false))), r1),
        put_step(r1.0, PutEvent::Connected(Replica::Primary, Ok(())), r2),
        put_step(r2.0, PutEvent::Written(Replica::Primary, Ok(())), r3),
    ensures
        r1.1 == PutAction::Connect(Replica::Primary),
        r2.1 == PutAction::Send(Replica::Primary),
        r3.1 matches PutAction::Done(Ok(m)) && {
            &&& m.key@ == s0.key@
            &&& m.size == s0.size
            &&& m.created_at@ == s0.now@
            &&& m.storage_node matches Some(n) && n@ == primary@
        },
{
}

/// A put whose primary cannot be reached but whose secondary takes the
/// write succeeds, and copies the object back to the primary in the
/// background.
pub proof fn law_fallback_put_succeeds(
    s0: PutState,
    primary: String,
    e: StoreError,
    r1: (PutState, PutAction),
    r2: (PutState, PutAction),
    r3: (PutState, PutAction),
    r4: (PutState, PutAction),
    r5: (PutState, PutAction),
)
    requires
        s0.phase is Routing,
        put_step(s0, PutEvent::Routed(Ok((primary, true))), r1),
        put_step(r1.0, PutEvent::Connected(Replica::Primary, Err(e)), r2),
        put_step(r2.0, PutEvent::Connected(Replica::Secondary, Ok(())), r3),
        put_step(r3.0, PutEvent::Written(Replica::Secondary, Ok(())), r4),
        put_step(r4.0, PutEvent::Spawned, r5),
    ensures
        r2.1 == PutAction::Connect(Replica::Secondary),
        r3.1 == PutAction::Send(Replica::Secondary),
        r4.1 == PutAction::SpawnAsync(Replica::Primary),
        r5.1 matches PutAction::Done(Ok(m)) && m.key@ == s0.key@ && m.size == s0.size,
{
}

/// The step after a successful write on `written` of the put `st`.
fn write_succeeded(st: PutState, written: Replica) -> (r: (PutState, PutAction))
    ensures
        after_write(st, r.0, r.1, written),
{
    let other = match written {
        Replica::Primary => if st.has_secondary { Some(Replica::Secondary) } else { None },
        Replica::Secondary => Some(Replica::Primary),
    };
    match other {
        Some(o) => {
            let PutState { key, size, content_type, tags, now, phase: _, has_secondary, meta } = st;
            (PutState { key, size, content_type, tags, now, phase: PutPhase::Replicating, has_secondary, meta }, PutAction::SpawnAsync(o))
        },
        None => finish_put(st),
    }
}

/// Ends the put `st` with its metadata; without metadata nothing happens.
fn finish_put(st: PutState) -> (r: (PutState, PutAction))
    ensures
        match st.meta {
            Some(m) => finished_from(st, r.0) && r.1 == PutAction::Done(Ok(m)),
            None => moved_to(st, r.0, st.phase) && r.1 is Ignore,
        },
{
    let PutState { key, size, content_type, tags, now, phase, has_secondary, meta } = st;
    match meta {
        Some(m) => (
            PutState { key, size, content_type, tags, now, phase: PutPhase::Finished, has_secondary, meta: None },
            PutAction::Done(Ok(m)),
        ),
        None => (PutState { key, size, content_type, tags, now, phase, has_secondary, meta: None }, PutAction::Ignore),
    }
}

/// One step of a replicated put: see `put_step`. The caller performs the
/// action and hands the outcome back as the next event.
pub fn replicated_put_step(s: PutState, ev: PutEvent) -> (r: (PutState, PutAction))
    ensures
        put_step(s, ev, r),
{
    let PutState { key, size, content_type, tags, now, phase, has_secondary, meta } = s;
    match (phase, ev) {
        (PutPhase::Routing, PutEvent::Routed(Err(e))) => (
            PutState { key, size, content_type, tags, now, phase: PutPhase::Finished, has_secondary, meta },
            PutAction::Done(Err(e)),
        ),
        (PutPhase::Routing, PutEvent::Routed(Ok((primary, has_sec)))) => {
            let m = replicated_put_meta(
                key.as_str(),
                size,
                crate::store::copy_opt_string(&content_type),
                crate::store::copy_opt_string(&tags),
                primary.as_str(),
                now.as_str(),
            );
            (
                PutState { key, size, content_type, tags, now, phase: PutPhase::ConnectingPrimary, has_secondary: has_sec, meta: Some(m) },
                PutAction::Connect(Replica::Primary),
            )
        },
        (PutPhase::ConnectingPrimary, PutEvent::Connected(Replica::Primary, Ok(()))) => (
            PutState { key, size, content_type, tags, now, phase: PutPhase::Writing(Replica::Primary), has_secondary, meta },
            PutAction::Send(Replica::Primary),
        ),
        (PutPhase::ConnectingPrimary, PutEvent::Connected(Replica::Primary, Err(_))) => match first_write_target(false, has_secondary) {
            Ok(target) => (
                PutState { key, size, content_type, tags, now, phase: PutPhase::ConnectingFallback, has_secondary, meta },
                PutAction::Connect(target),
            ),
            Err(e) => (
                PutState { key, size, content_type, tags, now, phase: PutPhase::Finished, has_secondary, meta },
                PutAction::Done(Err(e)),
            ),
        },
        (PutPhase::ConnectingFallback, PutEvent::Connected(Replica::Secondary, Ok(()))) => (
            PutState { key, size, content_type, tags, now, phase: PutPhase::Writing(Replica::Secondary), has_secondary, meta },
            PutAction::Send(Replica::Secondary),
        ),
        (PutPhase::ConnectingFallback, PutEvent::Connected(Replica::Secondary, Err(e))) => (
            PutState { key, size, content_type, tags, now, phase: PutPhase::Finished, has_secondary, meta },
            PutAction::Done(Err(e)),
        ),
        (PutPhase::Writing(w), PutEvent::Written(x, Ok(()))) if w == x => write_succeeded(
            PutState { key, size, content_type, tags, now, phase: PutPhase::Writing(w), has_secondary, meta },
            w,
        ),
        (PutPhase::Writing(w), PutEvent::Written(x, Err(e))) if w == x => match retry_write_target(has_secondary, e.as_str()) {
            Ok(target) => (
                PutState { key, size, content_type, tags, now, phase: PutPhase::ConnectingRetry(e), has_secondary, meta },
                PutAction::Connect(target),
            ),
            Err(err) => (
                PutState { key, size, content_type, tags, now, phase: PutPhase::Finished, has_secondary, meta },
                PutAction::Done(Err(err)),
            ),
        },
        (PutPhase::ConnectingRetry(e), PutEvent::Connected(Replica::Secondary, Ok(()))) => (
            PutState { key, size, content_type, tags, now, phase: PutPhase::Retrying(e), has_secondary, meta },
            PutAction::Send(Replica::Secondary),
        ),
        (PutPhase::ConnectingRetry(_), PutEvent::Connected(Replica::Secondary, Err(ce))) => (
            PutState { key, size, content_type, tags, now, phase: PutPhase::Finished, has_secondary, meta },
            PutAction::Done(Err(ce)),
        ),
        (PutPhase::Retrying(e1), PutEvent::Written(Replica::Secondary, Ok(()))) => write_succeeded(
            PutState { key, size, content_type, tags, now, phase: PutPhase::Retrying(e1), has_secondary, meta },
            Replica::Secondary,
        ),
        (PutPhase::Retrying(e1), PutEvent::Written(Replica::Secondary, Err(e2))) => {
            let err = both_writes_failed(e1.as_str(), e2.as_str());
            (
                PutState { key, size, content_type, tags, now, phase: PutPhase::Finished, has_secondary, meta },
                PutAction::Done(Err(err)),
            )
        },
        (PutPhase::Replicating, PutEvent::Spawned) => finish_put(
            PutState { key, size, content_type, tags, now, phase: PutPhase::Replicating, has_secondary, meta },
        ),
        (phase, _) => (PutState { key, size, content_type, tags, now, phase, has_secondary, meta }, PutAction::Ignore),
    }
}

/// Where a put addressed by quadkey stands.
#[derive(Debug, Clone, Copy, PartialEq, Eq, Structural)]
pub enum QuadPutPhase {
    /// Waiting for the region's worker.
    Routing,
    /// Connecting to the region's worker.
    Connecting,
    /// The write is on its way to the region's worker.
    Writing,
    /// The write is being kept in the master's pending buffer.
    Buffering,
    /// The put has ended.
    Finished,
}

/// What happened since the last step of a quadkey put.
#[derive(Debug)]
pub enum QuadPutEvent {
    /// Routing by quadkey found an alive worker of the region, or none.
    Routed(bool),
    /// Connecting to the region's worker succeeded or failed.
    Connected(Result<(), StoreError>),
    /// The region's worker took the write, or failed with this message.
    Written(Result<(), String>),
    /// The pending buffer kept the write, or failed.
    Buffered(Result<(), StoreError>),
}

/// Where a quadkey put ended up.
#[derive(Debug, Clone, Copy, PartialEq, Eq, Structural)]
pub enum QuadPutResult {
    /// The region's worker stored it.
    OnWorker,
    /// The master's pending buffer keeps it until the region's worker takes it back.
    Buffered,
}

/// What the caller does next in a quadkey put.
#[derive(Debug)]
pub enum QuadPutAction {
    /// Connect to the region's worker.
    Connect,
    /// Send the object to the region's worker.
    Send,
    /// Keep the object in the master's pending buffer for the region.
    BufferLocally,
    /// The put is over: where the object went, or the error to report.
    Done(Result<QuadPutResult, String>),
    /// The event does not belong to the current phase: nothing to do.
    Ignore,
}

/// One step of a put addressed by quadkey: the region's worker takes the
/// write when routing finds one; when there is none, or its write fails,
/// the master's pending buffer keeps it. A failed connection to the
/// region's worker ends the put with that error; a failed buffer write
/// ends it with "PendingStore put 失败: " and the buffer's error.
pub open spec fn quad_put_step(s: QuadPutPhase, ev: QuadPutEvent, r: (QuadPutPhase, QuadPutAction)) -> bool {
    match (s, ev) {
        (QuadPutPhase::Routing, QuadPutEvent::Routed(true)) => r.0 == QuadPutPhase::Connecting && r.1 is Connect,
        (QuadPutPhase::Routing, QuadPutEvent::Routed(false)) => r.0 == QuadPutPhase::Buffering && r.1 is BufferLocally,
        (QuadPutPhase::Connecting, QuadPutEvent::Connected(Ok(()))) => r.0 == QuadPutPhase::Writing && r.1 is Send,
        (QuadPutPhase::Connecting, QuadPutEvent::Connected(Err(e))) => r.0 == QuadPutPhase::Finished
            && (r.1 matches QuadPutAction::Done(Err(m)) && m@ == crate::error::error_message(e)),
        (QuadPutPhase::Writing, QuadPutEvent::Written(Ok(()))) => r.0 == QuadPutPhase::Finished
            && (r.1 matches QuadPutAction::Done(Ok(QuadPutResult::OnWorker))),
        (QuadPutPhase::Writing, QuadPutEvent::Written(Err(_))) => r.0 == QuadPutPhase::Buffering && r.1 is BufferLocally,
        (QuadPutPhase::Buffering, QuadPutEvent::Buffered(Ok(()))) => r.0 == QuadPutPhase::Finished
            && (r.1 matches QuadPutAction::Done(Ok(QuadPutResult::Buffered))),
        (QuadPutPhase::Buffering, QuadPutEvent::Buffered(Err(e))) => r.0 == QuadPutPhase::Finished
            && (r.1 matches QuadPutAction::Done(Err(m)) && m@ == "PendingStore put 失败: "@ + crate::error::error_message(e)),
        _ => r.0 == s && r.1 is Ignore,
    }
}

/// One step of a put addressed by quadkey: see `quad_put_step`.
pub fn quadkey_put_step(s: QuadPutPhase, ev: QuadPutEvent) -> (r: (QuadPutPhase, QuadPutAction))
    ensures
        quad_put_step(s, ev, r),
{
    match (s, ev) {
        (QuadPutPhase::Routing, QuadPutEvent::Routed(true)) => (QuadPutPhase::Connecting, QuadPutAction::Connect),
        (QuadPutPhase::Routing, QuadPutEvent::Routed(false)) => (QuadPutPhase::Buffering, QuadPutAction::BufferLocally),
        (QuadPutPhase::Connecting, QuadPutEvent::Connected(Ok(()))) => (QuadPutPhase::Writing, QuadPutAction::Send),
        (QuadPutPhase::Connecting, QuadPutEvent::Connected(Err(e))) =>
            (QuadPutPhase::Finished, QuadPutAction::Done(Err(e.to_string()))),
        (QuadPutPhase::Writing, QuadPutEvent::Written(Ok(()))) =>
            (QuadPutPhase::Finished, QuadPutAction::Done(Ok(QuadPutResult::OnWorker))),
        (QuadPutPhase::Writing, QuadPutEvent::Written(Err(_))) => (QuadPutPhase::Buffering, QuadPutAction::BufferLocally),
        (QuadPutPhase::Buffering, QuadPutEvent::Buffered(Ok(()))) =>
            (QuadPutPhase::Finished, QuadPutAction::Done(Ok(QuadPutResult::Buffered))),
        (QuadPutPhase::Buffering, QuadPutEvent::Buffered(Err(e))) => {
            let m = e.to_string();
            (QuadPutPhase::Finished, QuadPutAction::Done(Err(crate::text::concat2("PendingStore put 失败: ", m.as_str()))))
        },
        (phase, _) => (phase, QuadPutAction::Ignore),
    }
}

/// After a read from the primary failed with `error`: retry on the
/// secondary, or, without one, fail with the error.
pub fn retry_read_target(has_secondary: bool, error: &str) -> (r: Result<Replica, StoreError>)
    ensures
        has_secondary ==> r == Ok::<Replica, StoreError>(Replica::Secondary),
        !has_secondary ==> (r matches Err(StoreError::InvalidArgument(m)) && m@ == "Worker 读取失败(无备副本): "@ + error@),
{
    if has_secondary {
        Ok(Replica::Secondary)
    } else {
        Err(StoreError::InvalidArgument(crate::text::concat2("Worker 读取失败(无备副本): ", error)))
    }
}

/// The error of a read that failed on both replicas, carrying the
/// primary's error.
pub fn both_reads_failed(primary_error: &str) -> (e: StoreError)
    ensures
        e matches StoreError::InvalidArgument(m) && m@ == "Worker 读取失败(主+备均失败): "@ + primary_error@,
{
    StoreError::InvalidArgument(crate::text::concat2("Worker 读取失败(主+备均失败): ", primary_error))
}

/// The metadata the master records for a replicated put at `now`: stored
/// on the primary worker.
pub fn replicated_put_meta(key: &str, size: u64, content_type: Option<String>, tags: Option<String>, primary: &str, now: &str) -> (m: ObjectMeta)
    ensures
        m.key@ == key@,
        m.size == size,
        m.created_at@ == now@,
        m.updated_at@ == now@,
        crate::store::opt_view(m.content_type) == crate::store::opt_view(content_type),
        crate::store::opt_view(m.tags) == crate::store::opt_view(tags),
        m.checksum is None,
        m.storage_node matches Some(n) && n@ == primary@,
{
    ObjectMeta {
        key: key.to_owned(),
        size,
        created_at: now.to_owned(),
        updated_at: now.to_owned(),
        content_type,
        tags,
        checksum: None,
        storage_node: Some(primary.to_owned()),
    }
}

/// The metadata the master records for a replicated put, stamped with the
/// current time.
pub fn replicated_put_meta_now(key: &str, size: u64, content_type: Option<String>, tags: Option<String>, primary: &str) -> (m: ObjectMeta)
    ensures
        m.key@ == key@,
        m.size == size,
        m.updated_at@ == m.created_at@,
        crate::store::opt_view(m.content_type) == crate::store::opt_view(content_type),
        crate::store::opt_view(m.tags) == crate::store::opt_view(tags),
        m.checksum is None,
        m.storage_node matches Some(n) && n@ == primary@,
{
    let now = crate::store::now_rfc3339();
    replicated_put_meta(key, size, content_type, tags, primary, now.as_str())
}

/// Items grouped by their first component, groups in order of first
/// appearance and items in order within a group.
pub open spec fn grouped<T>(items: Seq<(String, T)>) -> Seq<(Seq<char>, Seq<T>)>
    decreases items.len(),
{
    if items.len() == 0 {
        Seq::empty()
    } else {
        let prev = grouped(items.drop_last());
        let (k, v) = items.last();
        if exists|j: int| 0 <= j < prev.len() && prev[j].0 == k@ {
            let j = choose|j: int| 0 <= j < prev.len() && prev[j].0 == k@;
            prev.update(j, (k@, prev[j].1.push(v)))
        } else {
            prev.push((k@, seq![v]))
        }
    }
}

/// The views of a list of groups.
pub open spec fn group_views<T>(g: Seq<(String, Vec<T>)>) -> Seq<(Seq<char>, Seq<T>)> {
    g.map_values(|e: (String, Vec<T>)| (e.0@, e.1@))
}

/// Groups items by their first component (a worker address or a region),
/// in order of first appearance.
pub fn group_by_first<T>(items: Vec<(String, T)>) -> (g: Vec<(String, Vec<T>)>)
    ensures
        group_views(g@) == grouped(items@),
        forall|a: int, b: int| 0 <= a < b < g@.len() ==> g@[a].0@ != g@[b].0@,
{
    let ghost its = items@;
    let mut items = items;
    let mut groups: Vec<(String, Vec<T>)> = Vec::new();
    let total = items.len();
    let mut n: usize = 0;
    assert(its.take(0) =~= Seq::<(String, T)>::empty());
    assert(group_views(groups@) =~= Seq::<(Seq<char>, Seq<T>)>::empty());
    while n < total
        invariant
            total == its.len(),
            n <= total,
            items@ == its.skip(n as int),
            group_views(groups@) == grouped(its.take(n as int)),
            forall|a: int, b: int| 0 <= a < b < groups@.len() ==> groups@[a].0@ != groups@[b].0@,
        decreases total - n,
    {
        assert(its.skip(n as int)[0] == its[n as int]);
        let (k, v) = items.remove(0);
        assert(items@ =~= its.skip(n + 1));
        assert(its.take(n + 1).drop_last() =~= its.take(n as int));
        assert(its.take(n + 1).last() == its[n as int]);
        let ghost prev = group_views(groups@);
        let ghost kv = k@;
        let ghost vv = v;
        let mut j: usize = 0;
        while j < groups.len() && !crate::text::str_eq(groups[j].0.as_str(), k.as_str())
            invariant
                j <= groups@.len(),
                forall|t: int| 0 <= t < j ==> groups@[t].0@ != kv,
                kv == k@,
            decreases groups@.len() - j,
        {
            j = j + 1;
        }
        if j < groups.len() {
            assert(prev[j as int].0 == kv);
            assert(exists|t: int| 0 <= t < prev.len() && prev[t].0 == kv);
            let ghost c = choose|t: int| 0 <= t < prev.len() && prev[t].0 == kv;
            assert(c == j) by {
                if c < j {
                    assert(groups@[c].0@ != kv);
                } else if c > j {
                    assert(groups@[j as int].0@ != groups@[c].0@);
                }
            }
            let ghost before = groups@;
            let (gk, mut gv) = groups.remove(j);
            gv.push(v);
            groups.insert(j, (gk, gv));
            assert(group_views(groups@) =~= prev.update(j as int, (kv, prev[j as int].1.push(vv))));
            assert forall|a: int, b: int| 0 <= a < b < groups@.len() implies groups@[a].0@ != groups@[b].0@ by {
                assert(groups@[a].0@ == before[a].0@);
                assert(groups@[b].0@ == before[b].0@);
            }
        } else {
            assert(!exists|t: int| 0 <= t < prev.len() && prev[t].0 == kv) by {
                if exists|t: int| 0 <= t < prev.len() && prev[t].0 == kv {
                    let t = choose|t: int| 0 <= t < prev.len() && prev[t].0 == kv;
                    assert(groups@[t].0@ == kv);
                }
            }
            let mut gv: Vec<T> = Vec::new();
            gv.push(v);
            groups.push((k, gv));
            assert(group_views(groups@) =~= prev.push((kv, seq![vv])));
        }
        n = n + 1;
    }
    assert(its.take(n as int) =~= its);
    groups
}

/// Routing picks one worker: two workers that both meet the routing rule for
/// a key among the same registry have the same id.
pub proof fn law_route_is_unique(ws: Seq<WorkerEntry>, key: Seq<char>, a: WorkerEntry, b: WorkerEntry)
    requires
        route_choice(ws, key, a),
        route_choice(ws, key, b),
    ensures
        a.worker_id@ == b.worker_id@,
{
    let i = choose|i: int| 0 <= i < ws.len() && (#[trigger] ws[i]).alive && same_entry(ws[i], a);
    let j = choose|j: int| 0 <= j < ws.len() && (#[trigger] ws[j]).alive && same_entry(ws[j], b);
    assert(route_score(key, ws[j].worker_id@) <= route_score(key, a.worker_id@));
    assert(route_score(key, ws[i].worker_id@) <= route_score(key, b.worker_id@));
    let (x, y) = (encode_utf8(a.worker_id@), encode_utf8(b.worker_id@));
    assert(!bytes_lt(x, id_bytes(ws[j])));
    assert(!bytes_lt(y, id_bytes(ws[i])));
    if x != y {
        lemma_bytes_lt_total(x, y);
    }
    vstd::utf8::encode_utf8_decode_utf8(a.worker_id@);
    vstd::utf8::encode_utf8_decode_utf8(b.worker_id@);
}

/// Rendezvous routing is stable under failures: when workers are marked
/// dead and the worker a key was routed to is still alive, the key is still
/// routed to it, so only the keys of failed workers move.
pub proof fn law_route_survives_other_failures(before: Seq<WorkerEntry>, after: Seq<WorkerEntry>, key: Seq<char>, w: WorkerEntry)
    requires
        unique_ids(before),
        only_failures(before, after),
        route_choice(before, key, w),
        exists|k: int| 0 <= k < after.len() && (#[trigger] after[k]).alive && after[k].worker_id@ == w.worker_id@,
    ensures
        route_choice(after, key, w),
{
    let i = choose|i: int| 0 <= i < before.len() && (#[trigger] before[i]).alive && same_entry(before[i], w);
    let k = choose|k: int| 0 <= k < after.len() && (#[trigger] after[k]).alive && after[k].worker_id@ == w.worker_id@;
    assert(before[k].worker_id == after[k].worker_id);
    assert(k == i);
    assert(same_entry(after[i], w));
    assert forall|t: int| 0 <= t < after.len() && (#[trigger] after[t]).alive implies
        route_score(key, after[t].worker_id@) <= route_score(key, w.worker_id@) by {
        assert(before[t].alive);
        assert(before[t].worker_id == after[t].worker_id);
    }
    assert forall|t: int| 0 <= t < after.len() && (#[trigger] after[t]).alive
        && route_score(key, after[t].worker_id@) == route_score(key, w.worker_id@) implies
        !bytes_lt(encode_utf8(w.worker_id@), id_bytes(after[t])) by {
        assert(before[t].alive);
        assert(before[t].worker_id == after[t].worker_id);
    }
}

/// The heartbeat rule without wrap-around: when no more than `i64::MAX`
/// seconds have passed since the last heartbeat, a worker counts as dead
/// exactly when more than the timeout has passed.
pub proof fn law_heartbeat_expires_after_timeout(now: i64, last: i64, timeout_secs: u64)
    requires
        last <= now,
        now - last <= i64::MAX,
        timeout_secs <= i64::MAX,
    ensures
        heartbeat_expired(now, last, timeout_secs) <==> now - last > timeout_secs,
{
}

} // verus!
