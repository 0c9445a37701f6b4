//! The in-memory side of the storage engine: a value cache, the
//! write-coalescing buffer, and the decisions of put, delete, exists, list
//! and flush that need no disk access.

use crate::listing::{listing, merge_listing};
use crate::meta::ObjectMeta;
use crate::write_buffer::{distinct_keys, entries_map, PendingOp, WriteBuffer};
use moka::sync::Cache;
use vstd::prelude::*;

verus! {

#[verifier::external_type_specification]
#[verifier::external_body]
#[verifier::reject_recursive_types(K)]
#[verifier::reject_recursive_types(V)]
#[verifier::reject_recursive_types(S)]
pub struct ExCache<K, V, S>(Cache<K, V, S>);

/// Bounded cache of recently written or read values.
pub type ValueCache = Cache<String, Vec<u8>>;

/// A map that agrees with every entry the cache holds: the cache may have
/// evicted any of these entries, but it holds no entry outside it.
pub uninterp spec fn cache_contents(c: ValueCache) -> Map<Seq<char>, Seq<u8>>;

/// `Cache::new`: an empty cache bounded to `max_capacity` entries.
#[verifier::external_body]
fn cache_new(max_capacity: u64) -> (fresh: ValueCache)
    ensures
        cache_contents(fresh).dom().is_empty(),
{
    Cache::new(max_capacity)
}

/// `Cache::insert`: afterwards the cache holds at most `value` under `key`
/// (it may decline to admit it) and, under every other key, at most what it
/// held before (it may evict).
#[verifier::external_body]
fn cache_insert(c: &mut ValueCache, key: String, value: Vec<u8>)
    ensures
        forall|k: Seq<char>| #[trigger] cache_contents(*final(c)).contains_key(k) ==> (
            (k == key@ && cache_contents(*final(c))[k] == value@)
            || (k != key@ && cache_contents(*old(c)).contains_key(k) && cache_contents(*final(c))[k] == cache_contents(*old(c))[k])),
{
    c.insert(key, value);
}

/// `Cache::get`: a clone of the value cached under `key`, if any.
#[verifier::external_body]
fn cache_get(c: &ValueCache, key: &str) -> (r: Option<Vec<u8>>)
    ensures
        r matches Some(v) ==> cache_contents(*c).contains_key(key@) && cache_contents(*c)[key@] == v@,
{
    c.get(key)
}

/// `Cache::invalidate`: afterwards nothing is cached under `key`, and every
/// other key holds at most what it held before.
#[verifier::external_body]
fn cache_invalidate(c: &mut ValueCache, key: &str)
    ensures
        !cache_contents(*final(c)).contains_key(key@),
        forall|k: Seq<char>| #[trigger] cache_contents(*final(c)).contains_key(k) ==> (
            cache_contents(*old(c)).contains_key(k) && cache_contents(*final(c))[k] == cache_contents(*old(c))[k]),
{
    c.invalidate(key);
}

/// The current time as RFC 3339 text, from `chrono::Utc::now`.
#[verifier::external_body]
pub(crate) fn now_rfc3339() -> String {
    chrono::Utc::now().to_rfc3339()
}

/// A copy of a string.
pub fn copy_string(s: &String) -> (r: String)
    ensures
        r@ == s@,
{
    s.clone()
}

/// A copy of an optional string.
pub fn copy_opt_string(s: &Option<String>) -> (r: Option<String>)
    ensures
        opt_view(r) == opt_view(*s),
{
    match s {
        Some(x) => Some(x.clone()),
        None => None,
    }
}

/// Two metadata records with the same field contents.
pub open spec fn same_meta(a: ObjectMeta, b: ObjectMeta) -> bool {
    &&& a.key@ == b.key@
    &&& a.size == b.size
    &&& a.created_at@ == b.created_at@
    &&& a.updated_at@ == b.updated_at@
    &&& opt_view(a.content_type) == opt_view(b.content_type)
    &&& opt_view(a.tags) == opt_view(b.tags)
    &&& opt_view(a.checksum) == opt_view(b.checksum)
    &&& opt_view(a.storage_node) == opt_view(b.storage_node)
}

/// The text of an optional string.
pub open spec fn opt_view(s: Option<String>) -> Option<Seq<char>> {
    match s {
        Some(x) => Some(x@),
        None => None,
    }
}

/// A field-by-field copy of a metadata record.
pub fn copy_meta(m: &ObjectMeta) -> (r: ObjectMeta)
    ensures
        same_meta(r, *m),
{
    ObjectMeta {
        key: m.key.clone(),
        size: m.size,
        created_at: m.created_at.clone(),
        updated_at: m.updated_at.clone(),
        content_type: copy_opt_string(&m.content_type),
        tags: copy_opt_string(&m.tags),
        checksum: copy_opt_string(&m.checksum),
        storage_node: copy_opt_string(&m.storage_node),
    }
}

/// A copy of a byte vector.
pub fn copy_bytes(v: &Vec<u8>) -> (r: Vec<u8>)
    ensures
        r@ == v@,
{
    let mut r: Vec<u8> = Vec::new();
    let mut i: usize = 0;
    while i < v.len()
        invariant
            i <= v@.len(),
            r@ == v@.take(i as int),
        decreases v@.len() - i,
    {
        r.push(v[i]);
        i = i + 1;
        assert(r@ =~= v@.take(i as int));
    }
    assert(v@.take(i as int) =~= v@);
    r
}

/// The metadata a put records for a fresh value: the value's length as
/// size, the same timestamp for creation and update, no checksum and no node.
pub open spec fn fresh_meta(m: ObjectMeta, key: Seq<char>, len: nat, now: Seq<char>, content_type: Option<Seq<char>>, tags: Option<Seq<char>>) -> bool {
    &&& m.key@ == key
    &&& m.size == len
    &&& m.created_at@ == now
    &&& m.updated_at@ == now
    &&& opt_view(m.content_type) == content_type
    &&& opt_view(m.tags) == tags
    &&& m.checksum is None
    &&& m.storage_node is None
}

/// Disk writes a flush performs, split out of the drained operations.
pub struct FlushBatch {
    /// Values to write, in drain order.
    pub put_kvs: Vec<(String, Vec<u8>)>,
    /// Metadata of the same puts, in the same order.
    pub put_metas: Vec<ObjectMeta>,
    /// Keys to delete, in drain order.
    pub del_keys: Vec<String>,
}

/// The puts among drained operations: key and value, in order.
pub open spec fn puts_of(ops: Seq<(String, PendingOp)>) -> Seq<(Seq<char>, Seq<u8>, ObjectMeta)>
    decreases ops.len(),
{
    if ops.len() == 0 {
        seq![]
    } else {
        let rest = puts_of(ops.drop_last());
        match ops.last().1 {
            PendingOp::Put { value, meta } => rest.push((ops.last().0@, value@, meta)),
            PendingOp::Delete => rest,
        }
    }
}

/// The keys of deletes among drained operations, in order.
pub open spec fn deletes_of(ops: Seq<(String, PendingOp)>) -> Seq<Seq<char>>
    decreases ops.len(),
{
    if ops.len() == 0 {
        seq![]
    } else {
        let rest = deletes_of(ops.drop_last());
        match ops.last().1 {
            PendingOp::Put { .. } => rest,
            PendingOp::Delete => rest.push(ops.last().0@),
        }
    }
}

/// Splits drained operations into the writes and deletes of one flush.
pub fn split_flush_ops(ops: Vec<(String, PendingOp)>) -> (b: FlushBatch)
    ensures
        b.put_kvs@.len() == puts_of(ops@).len(),
        b.put_metas@.len() == puts_of(ops@).len(),
        forall|i: int| 0 <= i < puts_of(ops@).len() ==> {
            &&& (#[trigger] b.put_kvs@[i]).0@ == puts_of(ops@)[i].0
            &&& b.put_kvs@[i].1@ == puts_of(ops@)[i].1
            &&& b.put_metas@[i] == puts_of(ops@)[i].2
        },
        b.del_keys@.len() == deletes_of(ops@).len(),
        forall|i: int| 0 <= i < deletes_of(ops@).len() ==> (#[trigger] b.del_keys@[i])@ == deletes_of(ops@)[i],
{
    let ghost o = ops@;
    let mut ops = ops;
    let mut put_kvs: Vec<(String, Vec<u8>)> = Vec::new();
    let mut put_metas: Vec<ObjectMeta> = Vec::new();
    let mut del_keys: Vec<String> = Vec::new();
    let total = ops.len();
    let mut n: usize = 0;
    while n < total
        invariant
            total == o.len(),
            n <= total,
            ops@ == o.skip(n as int),
            put_kvs@.len() == puts_of(o.take(n as int)).len(),
            put_metas@.len() == puts_of(o.take(n as int)).len(),
            forall|i: int| 0 <= i < puts_of(o.take(n as int)).len() ==> {
                &&& (#[trigger] put_kvs@[i]).0@ == puts_of(o.take(n as int))[i].0
                &&& put_kvs@[i].1@ == puts_of(o.take(n as int))[i].1
                &&& put_metas@[i] == puts_of(o.take(n as int))[i].2
            },
            del_keys@.len() == deletes_of(o.take(n as int)).len(),
            forall|i: int| 0 <= i < deletes_of(o.take(n as int)).len() ==> (#[trigger] del_keys@[i])@ == deletes_of(o.take(n as int))[i],
        decreases total - n,
    {
        let ghost t1 = o.take(n + 1);
        assert(t1.drop_last() =~= o.take(n as int));
        assert(o.skip(n as int)[0] == o[n as int]);
        let (key, op) = ops.remove(0);
        assert(ops@ =~= o.skip(n + 1));
        assert(t1.last() == o[n as int]);
        match op {
            PendingOp::Put { value, meta } => {
                put_kvs.push((key, value));
                put_metas.push(meta);
            },
            PendingOp::Delete => {
                del_keys.push(key);
            },
        }
        n = n + 1;
    }
    assert(o.take(total as int) =~= o);
    FlushBatch { put_kvs, put_metas, del_keys }
}

/// Whether `r` is an answer a read of `key` may get from memory holding
/// the cache contents `cached` and the pending operations `pending`: a value
/// the cache holds, a pending put, or, when no put is pending, the
/// databases (a pending delete included).
pub open spec fn read_answer(cached: Map<Seq<char>, Seq<u8>>, pending: Map<Seq<char>, PendingOp>, key: Seq<char>, r: crate::shard::ShardLookup) -> bool {
    match r {
        crate::shard::ShardLookup::Cached(v) => cached.contains_key(key) && cached[key] == v@,
        crate::shard::ShardLookup::Pending(v, m) => pending.contains_key(key)
            && (pending[key] matches PendingOp::Put { value, meta } && value@ == v@ && same_meta(m, meta)),
        crate::shard::ShardLookup::OnDisk => !(pending.contains_key(key) && pending[key] is Put),
    }
}

/// The value an answer carries, if it carries one.
pub open spec fn answer_value(r: crate::shard::ShardLookup) -> Option<Seq<u8>> {
    match r {
        crate::shard::ShardLookup::Cached(v) => Some(v@),
        crate::shard::ShardLookup::Pending(v, _) => Some(v@),
        crate::shard::ShardLookup::OnDisk => None,
    }
}

/// Whether a put of `value` under `key` took the memory from
/// (`cached0`, `pending0`) to (`cached1`, `pending1`): the put is pending,
/// other keys' operations are kept, and the cache holds, for `key`, at most
/// `value`.
pub open spec fn put_done(
    cached0: Map<Seq<char>, Seq<u8>>,
    pending0: Map<Seq<char>, PendingOp>,
    cached1: Map<Seq<char>, Seq<u8>>,
    pending1: Map<Seq<char>, PendingOp>,
    key: Seq<char>,
    value: Seq<u8>,
) -> bool {
    &&& pending1.contains_key(key)
    &&& pending1[key] matches PendingOp::Put { value: v, .. } && v@ == value
    &&& forall|k: Seq<char>| k != key ==> #[trigger] pending1.contains_key(k) == pending0.contains_key(k)
        && (pending0.contains_key(k) ==> pending1[k] == pending0[k])
    &&& cached1.contains_key(key) ==> cached1[key] == value
}

/// Reading your own write: once a put of `value` under `key` is done, every
/// answer a read of `key` may get from memory carries `value`.
pub proof fn law_read_your_write(
    cached0: Map<Seq<char>, Seq<u8>>,
    pending0: Map<Seq<char>, PendingOp>,
    cached1: Map<Seq<char>, Seq<u8>>,
    pending1: Map<Seq<char>, PendingOp>,
    key: Seq<char>,
    value: Seq<u8>,
    r: crate::shard::ShardLookup,
)
    requires
        put_done(cached0, pending0, cached1, pending1, key, value),
        read_answer(cached1, pending1, key, r),
    ensures
        answer_value(r) == Some(value),
{
}

/// After a delete of `key` (the cache holds nothing under it and a delete
/// is pending), a read of `key` finds nothing in memory and goes to the
/// databases, which still hold the value until the delete is flushed.
pub proof fn law_delete_sends_read_to_disk(
    cached: Map<Seq<char>, Seq<u8>>,
    pending: Map<Seq<char>, PendingOp>,
    key: Seq<char>,
    r: crate::shard::ShardLookup,
)
    requires
        !cached.contains_key(key),
        pending.contains_key(key),
        pending[key] is Delete,
        read_answer(cached, pending, key, r),
    ensures
        r is OnDisk,
{
}

/// `op` is a put of `value` with metadata matching `m`.
pub open spec fn is_put_of(op: PendingOp, value: Seq<u8>, m: ObjectMeta) -> bool {
    op matches PendingOp::Put { value: v, meta } && v@ == value && same_meta(meta, m)
}

/// No item among the first `n` of a batch has the key `k`.
pub open spec fn key_absent(its: Seq<(String, Vec<u8>, Option<String>, Option<String>)>, n: int, k: Seq<char>) -> bool {
    forall|i: int| 0 <= i < n ==> its[i].0@ != k
}

/// Item `i` is the last of the first `n` items of a batch with its key.
pub open spec fn last_with_key(its: Seq<(String, Vec<u8>, Option<String>, Option<String>)>, i: int, n: int) -> bool {
    forall|j: int| i < j < n ==> #[trigger] its[j].0@ != its[i].0@
}

/// The in-memory part of the store.
pub struct Store {
    cache: ValueCache,
    write_buffer: WriteBuffer,
}

impl Store {
    /// Operations waiting in the write buffer.
    pub closed spec fn pending(&self) -> Map<Seq<char>, PendingOp> {
        self.write_buffer.ops()
    }

    /// Operations submitted since the last flush.
    pub closed spec fn submitted(&self) -> u64 {
        self.write_buffer.count()
    }

    /// Values the cache may hold.
    pub closed spec fn cached(&self) -> Map<Seq<char>, Seq<u8>> {
        cache_contents(self.cache)
    }

    /// An empty store whose cache holds at most `cache_size` values.
    pub fn new(cache_size: usize) -> (s: Self)
        ensures
            s.pending() == crate::write_buffer::no_ops(),
            s.cached().dom().is_empty(),
    {
        Store { cache: cache_new(cache_size as u64), write_buffer: WriteBuffer::new() }
    }

    /// Writes `value` under `key`: the value is cached and a put is queued
    /// for the flusher; the returned metadata is what the put records.
    pub fn put(&mut self, key: String, value: Vec<u8>, content_type: Option<String>, tags: Option<String>) -> (m: ObjectMeta)
        ensures
            put_done(old(self).cached(), old(self).pending(), final(self).cached(), final(self).pending(), key@, value@),
            fresh_meta(m, key@, value@.len(), m.created_at@, opt_view(content_type), opt_view(tags)),
            final(self).pending().contains_key(key@),
            final(self).pending()[key@] matches PendingOp::Put { value: v, meta } && v@ == value@ && same_meta(meta, m),
            forall|k: Seq<char>| k != key@ ==> #[trigger] final(self).pending().contains_key(k) == old(self).pending().contains_key(k)
                && (old(self).pending().contains_key(k) ==> final(self).pending()[k] == old(self).pending()[k]),
            forall|k: Seq<char>| #[trigger] final(self).cached().contains_key(k) ==> (
                (k == key@ && final(self).cached()[k] == value@)
                || (k != key@ && old(self).cached().contains_key(k) && final(self).cached()[k] == old(self).cached()[k])),
    {
        let now = now_rfc3339();
        self.put_at(key, value, content_type, tags, &now)
    }

    fn put_at(&mut self, key: String, value: Vec<u8>, content_type: Option<String>, tags: Option<String>, now: &String) -> (m: ObjectMeta)
        ensures
            fresh_meta(m, key@, value@.len(), now@, opt_view(content_type), opt_view(tags)),
            final(self).pending().contains_key(key@),
            final(self).pending()[key@] matches PendingOp::Put { value: v, meta } && v@ == value@ && same_meta(meta, m),
            forall|k: Seq<char>| k != key@ ==> #[trigger] final(self).pending().contains_key(k) == old(self).pending().contains_key(k)
                && (old(self).pending().contains_key(k) ==> final(self).pending()[k] == old(self).pending()[k]),
            forall|k: Seq<char>| #[trigger] final(self).cached().contains_key(k) ==> (
                (k == key@ && final(self).cached()[k] == value@)
                || (k != key@ && old(self).cached().contains_key(k) && final(self).cached()[k] == old(self).cached()[k])),
    {
        let meta = ObjectMeta {
            key: copy_string(&key),
            size: value.len() as u64,
            created_at: copy_string(now),
            updated_at: copy_string(now),
            content_type,
            tags,
            checksum: None,
            storage_node: None,
        };
        let stored = copy_meta(&meta);
        cache_insert(&mut self.cache, copy_string(&key), copy_bytes(&value));
        self.write_buffer.submit_put(key, value, stored);
        meta
    }

    /// Writes every item with one shared timestamp, as successive puts do;
    /// returns the metadata of each, in order.
    pub fn put_batch(&mut self, items: Vec<(String, Vec<u8>, Option<String>, Option<String>)>) -> (ms: Vec<ObjectMeta>)
        ensures
            ms@.len() == items@.len(),
            forall|i: int| 0 <= i < items@.len() ==> fresh_meta(#[trigger] ms@[i], items@[i].0@, items@[i].1@.len(),
                ms@[0].created_at@, opt_view(items@[i].2), opt_view(items@[i].3)),
            forall|i: int| 0 <= i < items@.len() ==> #[trigger] final(self).pending().contains_key(items@[i].0@),
            forall|i: int| 0 <= i < items@.len() && last_with_key(items@, i, items@.len() as int) ==>
                is_put_of(#[trigger] final(self).pending()[items@[i].0@], items@[i].1@, ms@[i]),
            forall|k: Seq<char>| #[trigger] final(self).pending().contains_key(k) ==> old(self).pending().contains_key(k)
                || exists|i: int| 0 <= i < items@.len() && items@[i].0@ == k,
            forall|k: Seq<char>| key_absent(items@, items@.len() as int, k) ==>
                #[trigger] final(self).pending().contains_key(k) == old(self).pending().contains_key(k)
                && (old(self).pending().contains_key(k) ==> final(self).pending()[k] == old(self).pending()[k]),
    {
        let now = now_rfc3339();
        let ghost its = items@;
        let ghost p0 = self.pending();
        let mut items = items;
        let mut ms: Vec<ObjectMeta> = Vec::new();
        let total = items.len();
        let mut n: usize = 0;
        while n < total
            invariant
                total == its.len(),
                n <= total,
                items@ == its.skip(n as int),
                ms@.len() == n,
                p0 == old(self).pending(),
                forall|i: int| 0 <= i < n ==> fresh_meta(#[trigger] ms@[i], its[i].0@, its[i].1@.len(), now@, opt_view(its[i].2), opt_view(its[i].3)),
                forall|i: int| 0 <= i < n ==> #[trigger] self.pending().contains_key(its[i].0@),
                forall|i: int| 0 <= i < n && last_with_key(its, i, n as int) ==>
                    is_put_of(#[trigger] self.pending()[its[i].0@], its[i].1@, ms@[i]),
                forall|k: Seq<char>| #[trigger] self.pending().contains_key(k) ==> p0.contains_key(k)
                    || exists|i: int| 0 <= i < n && its[i].0@ == k,
                forall|k: Seq<char>| key_absent(its, n as int, k) ==>
                    #[trigger] self.pending().contains_key(k) == p0.contains_key(k)
                    && (p0.contains_key(k) ==> self.pending()[k] == p0[k]),
            decreases total - n,
        {
            assert(its.skip(n as int)[0] == its[n as int]);
            let (key, value, content_type, tags) = items.remove(0);
            assert(items@ =~= its.skip(n + 1));
            let ghost prev = self.pending();
            let ghost prev_ms = ms@;
            let m = self.put_at(key, value, content_type, tags, &now);
            ms.push(m);
            assert forall|i: int| 0 <= i < n + 1 && last_with_key(its, i, n + 1) implies
                is_put_of(#[trigger] self.pending()[its[i].0@], its[i].1@, ms@[i]) by {
                if i < n {
                    assert(its[n as int].0@ != its[i].0@);
                    assert(last_with_key(its, i, n as int));
                    assert(prev.contains_key(its[i].0@));
                    assert(is_put_of(prev[its[i].0@], its[i].1@, prev_ms[i]));
                    assert(self.pending().contains_key(its[i].0@));
                    assert(self.pending()[its[i].0@] == prev[its[i].0@]);
                    assert(ms@[i] == prev_ms[i]);
                }
            }
            assert forall|k: Seq<char>| #[trigger] self.pending().contains_key(k) implies p0.contains_key(k)
                || exists|i: int| 0 <= i < n + 1 && its[i].0@ == k by {
                if k == its[n as int].0@ {
                } else {
                    assert(prev.contains_key(k));
                }
            }
            assert forall|k: Seq<char>| key_absent(its, n + 1, k) implies
                #[trigger] self.pending().contains_key(k) == p0.contains_key(k)
                && (p0.contains_key(k) ==> self.pending()[k] == p0[k]) by {
                assert(its[n as int].0@ != k);
                assert(prev.contains_key(k) == p0.contains_key(k));
                assert(self.pending().contains_key(k) == prev.contains_key(k));
            }
            n = n + 1;
        }
        ms
    }

    /// Deletes `key`: its cached value is dropped and a delete is queued.
    pub fn delete(&mut self, key: &str)
        ensures
            final(self).pending().contains_key(key@),
            final(self).pending()[key@] is Delete,
            forall|k: Seq<char>| k != key@ ==> #[trigger] final(self).pending().contains_key(k) == old(self).pending().contains_key(k)
                && (old(self).pending().contains_key(k) ==> final(self).pending()[k] == old(self).pending()[k]),
            !final(self).cached().contains_key(key@),
    {
        cache_invalidate(&mut self.cache, key);
        self.write_buffer.submit_delete(key.to_owned());
    }

    /// Whether `key` exists, when memory alone can tell: a pending put says
    /// yes, a pending delete says no, a cached value says yes; `None` means
    /// only the metadata database can answer.
    pub fn exists_in_memory(&self, key: &str) -> (r: Option<bool>)
        ensures
            self.pending().contains_key(key@) ==> r == Some(self.pending()[key@] is Put),
            !self.pending().contains_key(key@) && r == Some(true) ==> self.cached().contains_key(key@),
            !self.pending().contains_key(key@) ==> r != Some(false),
    {
        match self.write_buffer.get(key) {
            Some(PendingOp::Put { .. }) => Some(true),
            Some(PendingOp::Delete) => Some(false),
            None => {
                match cache_get(&self.cache, key) {
                    Some(_) => Some(true),
                    None => None,
                }
            },
        }
    }

    /// Where a read of `key` finds it first: the cache, then a put pending
    /// in the write buffer, else the databases.
    pub fn lookup(&self, key: &str) -> (r: crate::shard::ShardLookup)
        ensures
            read_answer(self.cached(), self.pending(), key@, r),
    {
        match cache_get(&self.cache, key) {
            Some(v) => crate::shard::ShardLookup::Cached(v),
            None => match self.write_buffer.get(key) {
                Some(PendingOp::Put { value, meta }) => crate::shard::ShardLookup::Pending(value, meta),
                _ => crate::shard::ShardLookup::OnDisk,
            },
        }
    }

    /// The value cached under `key`, if the cache still holds one.
    pub fn cached_value(&self, key: &str) -> (r: Option<Vec<u8>>)
        ensures
            r matches Some(v) ==> self.cached().contains_key(key@) && self.cached()[key@] == v@,
    {
        cache_get(&self.cache, key)
    }

    /// The operation pending for `key`, if any.
    pub fn pending_op(&self, key: &str) -> (r: Option<PendingOp>)
        ensures
            match r {
                Some(op) => self.pending().contains_key(key@) && op == self.pending()[key@],
                None => !self.pending().contains_key(key@),
            },
    {
        self.write_buffer.get(key)
    }

    /// Caches a value read from disk.
    pub fn remember(&mut self, key: String, value: Vec<u8>)
        ensures
            final(self).pending() == old(self).pending(),
            forall|k: Seq<char>| #[trigger] final(self).cached().contains_key(k) ==> (
                (k == key@ && final(self).cached()[k] == value@)
                || (k != key@ && old(self).cached().contains_key(k) && final(self).cached()[k] == old(self).cached()[k])),
    {
        cache_insert(&mut self.cache, key, value);
    }

    /// Operations submitted since the last flush.
    pub fn pending_len(&self) -> (n: u64)
        ensures
            n == self.submitted(),
    {
        self.write_buffer.pending_len()
    }

    /// Every pending operation, each key once.
    pub fn pending_entries(&self) -> (out: Vec<(String, PendingOp)>)
        ensures
            distinct_keys(out@),
            entries_map(out@) == self.pending(),
    {
        self.write_buffer.snapshot()
    }

    /// The listing of `prefix`: `disk` as the metadata database returned it,
    /// merged with the pending operations.
    pub fn list(&self, disk: Vec<ObjectMeta>, prefix: &str, limit: usize) -> (r: Vec<ObjectMeta>)
        ensures
            exists|ents: Seq<(String, PendingOp)>| distinct_keys(ents) && entries_map(ents) == self.pending()
                && r@ == listing(disk@, ents, prefix@, limit as nat),
            crate::listing::all_under(r@, prefix@),
    {
        let ents = self.write_buffer.snapshot();
        let ghost e = ents@;
        proof { crate::listing::lemma_listing_under(disk@, e, prefix@, limit as nat); }
        let r = merge_listing(disk, ents, prefix, limit);
        assert(distinct_keys(e) && entries_map(e) == self.pending() && r@ == listing(disk@, e, prefix@, limit as nat));
        r
    }

    /// Takes everything pending for one flush, leaving the buffer empty.
    pub fn take_flush_batch(&mut self) -> (b: FlushBatch)
        ensures
            final(self).pending() == crate::write_buffer::no_ops(),
            final(self).cached() == old(self).cached(),
            exists|ops: Seq<(String, PendingOp)>| distinct_keys(ops) && entries_map(ops) == old(self).pending() && {
                &&& b.put_kvs@.len() == puts_of(ops).len()
                &&& b.put_metas@.len() == puts_of(ops).len()
                &&& forall|i: int| 0 <= i < puts_of(ops).len() ==> {
                    &&& (#[trigger] b.put_kvs@[i]).0@ == puts_of(ops)[i].0
                    &&& b.put_kvs@[i].1@ == puts_of(ops)[i].1
                    &&& b.put_metas@[i] == puts_of(ops)[i].2
                }
                &&& b.del_keys@.len() == deletes_of(ops).len()
                &&& forall|i: int| 0 <= i < deletes_of(ops).len() ==> (#[trigger] b.del_keys@[i])@ == deletes_of(ops)[i]
            },
    {
        let ops = self.write_buffer.drain();
        let ghost o = ops@;
        let b = split_flush_ops(ops);
        b
    }
}

} // verus!
