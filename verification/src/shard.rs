//! Sharding of a worker's store: the files of each shard, the routing of
//! keys to shards by hash, and the in-memory side of the sharded store
//! (per-shard value caches and write buffers) whose decisions need no disk.

use crate::error::StoreError;
use crate::hashing::{seahash_of, seahash_str};
use crate::meta::ObjectMeta;
use crate::store::{copy_bytes, copy_meta, copy_string, fresh_meta, now_rfc3339, opt_view, same_meta, split_flush_ops, FlushBatch, puts_of, deletes_of};
use crate::write_buffer::{distinct_keys, entries_map, PendingOp, WriteBuffer};
use crate::listing::{admit_prefixed, admit_records, all_under, capped, insert_in_order, lemma_capped_under, lemma_shown_in, lemma_sort_under, shown, sort_by_key, ListState};
use dashmap::DashMap;
use vstd::hash_map::StringHashMap;
use crate::text::{concat2, decimal, decimal_string, is_prefix, join_path, path_join, starts_with};
use vstd::prelude::*;
use vstd::utf8::encode_utf8;

verus! {

/// The files of one shard: a key-value database and a metadata database.
#[derive(Debug, Clone)]
pub struct ShardConfig {
    /// The shard's number, from 0.
    pub shard_id: usize,
    /// The directory of the shard's files.
    pub data_dir: String,
    /// File name of the key-value database, without extension.
    pub kv_name: String,
    /// Extension of the key-value database, with its dot (".db").
    pub kv_ext: String,
    /// File name of the metadata database, without extension.
    pub meta_name: String,
    /// Extension of the metadata database, with its dot.
    pub meta_ext: String,
}

impl ShardConfig {
    /// Shard `shard_id` in `data_dir`, with files "kv_<id>.db" and
    /// "meta_<id>.db".
    pub fn new(shard_id: usize, data_dir: &str) -> (c: Self)
        ensures
            c.shard_id == shard_id,
            c.data_dir@ == data_dir@,
            c.kv_name@ == "kv_"@ + decimal(shard_id as nat),
            c.kv_ext@ == ".db"@,
            c.meta_name@ == "meta_"@ + decimal(shard_id as nat),
            c.meta_ext@ == ".db"@,
    {
        let id = decimal_string(shard_id as u64);
        ShardConfig {
            shard_id,
            data_dir: data_dir.to_owned(),
            kv_name: concat2("kv_", id.as_str()),
            kv_ext: ".db".to_owned(),
            meta_name: concat2("meta_", id.as_str()),
            meta_ext: ".db".to_owned(),
        }
    }

    /// The same shard with another key-value file name and extension.
    pub fn with_kv(self, name: &str, ext: &str) -> (c: Self)
        ensures
            c.kv_name@ == name@,
            c.kv_ext@ == ext@,
            c.shard_id == self.shard_id,
            c.data_dir == self.data_dir,
            c.meta_name == self.meta_name,
            c.meta_ext == self.meta_ext,
    {
        ShardConfig { kv_name: name.to_owned(), kv_ext: ext.to_owned(), ..self }
    }

    /// The same shard with another metadata file name and extension.
    pub fn with_meta(self, name: &str, ext: &str) -> (c: Self)
        ensures
            c.meta_name@ == name@,
            c.meta_ext@ == ext@,
            c.shard_id == self.shard_id,
            c.data_dir == self.data_dir,
            c.kv_name == self.kv_name,
            c.kv_ext == self.kv_ext,
    {
        ShardConfig { meta_name: name.to_owned(), meta_ext: ext.to_owned(), ..self }
    }

    /// The path of the key-value database: its name and extension in the
    /// data directory.
    pub fn kv_path(&self) -> (p: String)
        ensures
            p@ == path_join(self.data_dir@, self.kv_name@ + self.kv_ext@),
    {
        let file = concat2(self.kv_name.as_str(), self.kv_ext.as_str());
        join_path(self.data_dir.as_str(), file.as_str())
    }

    /// The path of the metadata database.
    pub fn meta_path(&self) -> (p: String)
        ensures
            p@ == path_join(self.data_dir@, self.meta_name@ + self.meta_ext@),
    {
        let file = concat2(self.meta_name.as_str(), self.meta_ext.as_str());
        join_path(self.data_dir.as_str(), file.as_str())
    }
}

/// `s` with every occurrence of the non-empty `pat` replaced by `rep`,
/// scanning from the left without overlaps, as `str::replace` does.
pub open spec fn replaced(s: Seq<char>, pat: Seq<char>, rep: Seq<char>) -> Seq<char>
    decreases s.len(),
{
    if s.len() == 0 || pat.len() == 0 {
        s
    } else if is_prefix(pat, s) {
        rep + replaced(s.skip(pat.len() as int), pat, rep)
    } else {
        seq![s[0]] + replaced(s.drop_first(), pat, rep)
    }
}

/// `s` with every occurrence of the non-empty `pat` replaced by `rep`.
pub fn replace_all(s: &str, pat: &str, rep: &str) -> (r: String)
    requires
        pat@.len() > 0,
    ensures
        r@ == replaced(s@, pat@, rep@),
{
    let mut out = String::new();
    let mut rest: String = s.to_owned();
    let m = pat.unicode_len();
    while rest.unicode_len() > 0
        invariant
            m == pat@.len(),
            m > 0,
            out@ + replaced(rest@, pat@, rep@) == replaced(s@, pat@, rep@),
        decreases rest@.len(),
    {
        let n = rest.unicode_len();
        if starts_with(rest.as_str(), pat) {
            out.append(rep);
            let next = rest.as_str().substring_char(m, n).to_owned();
            assert(next@ =~= rest@.skip(m as int));
            assert(out@ + replaced(next@, pat@, rep@) =~= replaced(s@, pat@, rep@));
            rest = next;
        } else {
            let head = rest.as_str().substring_char(0, 1).to_owned();
            let next = rest.as_str().substring_char(1, n).to_owned();
            assert(head@ =~= seq![rest@[0]]);
            assert(next@ =~= rest@.drop_first());
            out.append(head.as_str());
            assert(out@ + replaced(next@, pat@, rep@) =~= replaced(s@, pat@, rep@));
            rest = next;
        }
    }
    assert(out@ =~= replaced(s@, pat@, rep@));
    out
}

/// The shard files `open_simple` uses: shards 0 to n-1 in `data_dir`, each
/// file name made from its template with every "{}" replaced by the
/// shard's number.
pub open spec fn simple_config_ok(c: ShardConfig, i: nat, data_dir: Seq<char>, kv_tmpl: Seq<char>, kv_ext: Seq<char>, meta_tmpl: Seq<char>, meta_ext: Seq<char>) -> bool {
    &&& c.shard_id == i
    &&& c.data_dir@ == data_dir
    &&& c.kv_name@ == replaced(kv_tmpl, "{}"@, decimal(i))
    &&& c.kv_ext@ == kv_ext
    &&& c.meta_name@ == replaced(meta_tmpl, "{}"@, decimal(i))
    &&& c.meta_ext@ == meta_ext
}

/// The configurations of `num_shards` shards named from templates such as
/// "kv_{}"; no shard at all is refused.
pub fn simple_configs(
    data_dir: &str,
    num_shards: usize,
    kv_name_template: &str,
    kv_ext: &str,
    meta_name_template: &str,
    meta_ext: &str,
) -> (r: Result<Vec<ShardConfig>, StoreError>)
    ensures
        num_shards == 0 <==> r is Err,
        r matches Err(e) ==> e is InvalidArgument,
        r matches Ok(cs) ==> {
            &&& cs@.len() == num_shards
            &&& forall|i: int| 0 <= i < num_shards ==> simple_config_ok(#[trigger] cs@[i], i as nat, data_dir@, kv_name_template@, kv_ext@, meta_name_template@, meta_ext@)
        },
{
    if num_shards == 0 {
        return Err(StoreError::InvalidArgument("分片数量必须大于 0".to_owned()));
    }
    proof { reveal_strlit("{}"); }
    let mut cs: Vec<ShardConfig> = Vec::new();
    let mut i: usize = 0;
    while i < num_shards
        invariant
            i <= num_shards,
            cs@.len() == i,
            "{}"@.len() == 2,
            forall|j: int| 0 <= j < i ==> simple_config_ok(#[trigger] cs@[j], j as nat, data_dir@, kv_name_template@, kv_ext@, meta_name_template@, meta_ext@),
        decreases num_shards - i,
    {
        let id = decimal_string(i as u64);
        let kv_name = replace_all(kv_name_template, "{}", id.as_str());
        let meta_name = replace_all(meta_name_template, "{}", id.as_str());
        let c = ShardConfig::new(i, data_dir).with_kv(kv_name.as_str(), kv_ext).with_meta(meta_name.as_str(), meta_ext);
        cs.push(c);
        i = i + 1;
    }
    Ok(cs)
}

/// How keys are assigned to shards.
#[derive(Debug, Clone, Copy, PartialEq, Eq, Structural)]
pub enum ShardStrategy {
    /// The SeaHash of the key modulo the number of shards.
    Hash,
}

impl Default for ShardStrategy {
    fn default() -> (s: Self)
        ensures
            s == ShardStrategy::Hash,
    {
        ShardStrategy::Hash
    }
}

/// The shard `key` belongs to among `n`: its SeaHash, taken as a `usize`,
/// modulo `n`.
pub open spec fn shard_of(key: Seq<char>, n: nat) -> nat {
    ((seahash_of(encode_utf8(key)) as usize) as nat) % n
}

/// The shard `key` belongs to among `n` shards.
pub fn shard_index(key: &str, n: usize) -> (i: usize)
    requires
        n > 0,
    ensures
        i == shard_of(key@, n as nat),
        i < n,
{
    let h = seahash_str(key);
    #[verifier::truncate]
    let hu = h as usize;
    hu % n
}

/// A shard's cache of values, by key.
pub type ShardCache = DashMap<String, Vec<u8>>;

/// What a shard cache holds: key text to value bytes.
pub uninterp spec fn shard_cache_contents(c: ShardCache) -> Map<Seq<char>, Seq<u8>>;

/// `DashMap::with_capacity`: a new map holding nothing.
#[verifier::external_body]
fn shard_cache_new(capacity: usize) -> (fresh: ShardCache)
    ensures
        shard_cache_contents(fresh).dom().is_empty(),
{
    DashMap::with_capacity(capacity)
}

/// `DashMap::len`: the number of entries the map holds.
#[verifier::external_body]
fn shard_cache_len(c: &ShardCache) -> (n: usize)
    ensures
        n as nat == shard_cache_contents(*c).len(),
{
    c.len()
}

/// `DashMap::insert`: afterwards `key` maps to `value`, every other key as before.
#[verifier::external_body]
fn shard_cache_insert(c: &mut ShardCache, key: String, value: Vec<u8>)
    ensures
        shard_cache_contents(*final(c)) == shard_cache_contents(*old(c)).insert(key@, value@),
{
    c.insert(key, value);
}

/// `DashMap::get`, the value cloned out of the guard: the value under
/// `key`, or `None` when there is none.
#[verifier::external_body]
fn shard_cache_get(c: &ShardCache, key: &str) -> (r: Option<Vec<u8>>)
    ensures
        match r {
            Some(v) => shard_cache_contents(*c).contains_key(key@) && v@ == shard_cache_contents(*c)[key@],
            None => !shard_cache_contents(*c).contains_key(key@),
        },
{
    match c.get(key) {
        Some(entry) => Some(entry.value().clone()),
        None => None,
    }
}

/// `DashMap::remove`: afterwards nothing is held under `key`, every other
/// key as before.
#[verifier::external_body]
fn shard_cache_remove(c: &mut ShardCache, key: &str)
    ensures
        shard_cache_contents(*final(c)) == shard_cache_contents(*old(c)).remove(key@),
{
    c.remove(key);
}

/// Whether a put of `value` under `key` took a shard's memory from
/// (`cached0`, `pending0`) to (`cached1`, `pending1`): the put is pending,
/// other keys' operations are kept, and the value was cached only while the
/// cache, bounded by `limit`, had room.
pub open spec fn shard_put_done(
    cached0: Map<Seq<char>, Seq<u8>>,
    pending0: Map<Seq<char>, PendingOp>,
    cached1: Map<Seq<char>, Seq<u8>>,
    pending1: Map<Seq<char>, PendingOp>,
    key: Seq<char>,
    value: Seq<u8>,
    limit: usize,
) -> bool {
    &&& pending1.contains_key(key)
    &&& pending1[key] matches PendingOp::Put { value: v, .. } && v@ == value
    &&& forall|k: Seq<char>| k != key ==> #[trigger] pending1.contains_key(k) == pending0.contains_key(k)
        && (pending0.contains_key(k) ==> pending1[k] == pending0[k])
    &&& cached1 == (if cached0.len() < limit { cached0.insert(key, value) } else { cached0 })
}

/// Reading your own write in a shard: once a put of `value` under `key` is
/// done, every answer a read of `key` gets from the shard's memory carries
/// `value`, unless the shard's cache was full and already held an older
/// value for `key`, which the put then leaves in place.
pub proof fn law_shard_read_your_write(
    cached0: Map<Seq<char>, Seq<u8>>,
    pending0: Map<Seq<char>, PendingOp>,
    cached1: Map<Seq<char>, Seq<u8>>,
    pending1: Map<Seq<char>, PendingOp>,
    key: Seq<char>,
    value: Seq<u8>,
    limit: usize,
    r: ShardLookup,
)
    requires
        shard_put_done(cached0, pending0, cached1, pending1, key, value, limit),
        !(cached0.len() >= limit && cached0.contains_key(key)),
        crate::store::read_answer(cached1, pending1, key, r),
    ensures
        crate::store::answer_value(r) == Some(value),
{
    assert(crate::store::put_done(cached0, pending0, cached1, pending1, key, value));
    crate::store::law_read_your_write(cached0, pending0, cached1, pending1, key, value, r);
}

/// Where a read of a key finds it first.
#[derive(Debug)]
pub enum ShardLookup {
    /// The shard's cache holds the value; its metadata is on disk.
    Cached(Vec<u8>),
    /// A put of the value is waiting in the shard's write buffer.
    Pending(Vec<u8>, ObjectMeta),
    /// Only the shard's databases can tell.
    OnDisk,
}

/// The in-memory side of a sharded store: for each shard, its files, a
/// bounded value cache and a write buffer; keys go to shards by hash.
pub struct ShardManager {
    configs: Vec<ShardConfig>,
    strategy: ShardStrategy,
    buffers: Vec<WriteBuffer>,
    caches: Vec<ShardCache>,
    cache_size: usize,
}

/// The listing state after the pending operations `ents` under `prefix`:
/// a put of a key not shown yet keeps its metadata and shows the key; a
/// delete hides the key.
pub open spec fn admit_pending(st: ListState, ents: Seq<(String, PendingOp)>, prefix: Seq<char>) -> ListState
    decreases ents.len(),
{
    if ents.len() == 0 {
        st
    } else {
        let prev = admit_pending(st, ents.drop_last(), prefix);
        let e = ents.last();
        if !is_prefix(prefix, e.0@) {
            prev
        } else {
            match e.1 {
                PendingOp::Put { value, meta } => if prev.1.contains(e.0@) {
                    prev
                } else {
                    (prev.0.push(meta), prev.1.insert(e.0@))
                },
                PendingOp::Delete => (prev.0, prev.1.remove(e.0@)),
            }
        }
    }
}

/// The listing state after the shards, each taken as its disk records then
/// its pending operations, in shard order.
pub open spec fn admit_shards(shards: Seq<(Seq<ObjectMeta>, Seq<(String, PendingOp)>)>, prefix: Seq<char>) -> ListState
    decreases shards.len(),
{
    if shards.len() == 0 {
        (Seq::empty(), Set::empty())
    } else {
        let prev = admit_shards(shards.drop_last(), prefix);
        admit_pending(admit_prefixed(prev, shards.last().0, prefix), shards.last().1, prefix)
    }
}

/// Keys under the prefix.
pub open spec fn keys_under(keys: Set<Seq<char>>, prefix: Seq<char>) -> bool {
    forall|k: Seq<char>| #[trigger] keys.contains(k) ==> is_prefix(prefix, k)
}

proof fn lemma_admit_prefixed_under(st: ListState, recs: Seq<ObjectMeta>, prefix: Seq<char>)
    requires
        keys_under(st.1, prefix),
    ensures
        keys_under(admit_prefixed(st, recs, prefix).1, prefix),
    decreases recs.len(),
{
    if recs.len() > 0 {
        lemma_admit_prefixed_under(st, recs.drop_last(), prefix);
    }
}

proof fn lemma_admit_pending_under(st: ListState, ents: Seq<(String, PendingOp)>, prefix: Seq<char>)
    requires
        keys_under(st.1, prefix),
    ensures
        keys_under(admit_pending(st, ents, prefix).1, prefix),
    decreases ents.len(),
{
    if ents.len() > 0 {
        lemma_admit_pending_under(st, ents.drop_last(), prefix);
    }
}

proof fn lemma_admit_shards_under(shards: Seq<(Seq<ObjectMeta>, Seq<(String, PendingOp)>)>, prefix: Seq<char>)
    ensures
        keys_under(admit_shards(shards, prefix).1, prefix),
    decreases shards.len(),
{
    if shards.len() > 0 {
        lemma_admit_shards_under(shards.drop_last(), prefix);
        let prev = admit_shards(shards.drop_last(), prefix);
        lemma_admit_prefixed_under(prev, shards.last().0, prefix);
        lemma_admit_pending_under(admit_prefixed(prev, shards.last().0, prefix), shards.last().1, prefix);
    }
}

/// Every record a sharded listing of `prefix` shows has a key starting
/// with `prefix`.
pub proof fn lemma_sharded_listing_under(shards: Seq<(Seq<ObjectMeta>, Seq<(String, PendingOp)>)>, prefix: Seq<char>, limit: nat)
    ensures
        all_under(sharded_listing(shards, prefix, limit), prefix),
{
    let st = admit_shards(shards, prefix);
    lemma_admit_shards_under(shards, prefix);
    lemma_shown_in(st.0, st.1);
    let sh = shown(st.0, st.1);
    assert forall|i: int| 0 <= i < sh.len() implies is_prefix(prefix, (#[trigger] sh[i]).key@) by {
        assert(st.1.contains(sh[i].key@));
    }
    lemma_sort_under(sh, prefix);
    lemma_capped_under(sort_by_key(sh), limit, prefix);
}

/// The listing of a sharded store: the kept records whose key is still
/// shown, stably sorted by key, cut to `limit`.
pub open spec fn sharded_listing(shards: Seq<(Seq<ObjectMeta>, Seq<(String, PendingOp)>)>, prefix: Seq<char>, limit: nat) -> Seq<ObjectMeta> {
    let st = admit_shards(shards, prefix);
    capped(sort_by_key(shown(st.0, st.1)), limit)
}

/// The records shown are exactly the kept records whose key is shown.
proof fn lemma_shown_members(recs: Seq<ObjectMeta>, keys: Set<Seq<char>>)
    ensures
        forall|y: ObjectMeta| #[trigger] shown(recs, keys).contains(y) <==> (recs.contains(y) && keys.contains(y.key@)),
    decreases recs.len(),
{
    if recs.len() > 0 {
        lemma_shown_members(recs.drop_last(), keys);
        let r = shown(recs.drop_last(), keys);
        assert forall|y: ObjectMeta| #[trigger] shown(recs, keys).contains(y) <==> (recs.contains(y) && keys.contains(y.key@)) by {
            if recs.contains(y) && y != recs.last() {
                let j = choose|j: int| 0 <= j < recs.len() && recs[j] == y;
                assert(recs.drop_last()[j] == y);
                assert(recs.drop_last().contains(y));
            }
            if recs.drop_last().contains(y) {
                let j = choose|j: int| 0 <= j < recs.drop_last().len() && recs.drop_last()[j] == y;
                assert(recs[j] == y);
            }
            if y == recs.last() {
                assert(recs[recs.len() - 1] == y);
            }
            if keys.contains(recs.last().key@) {
                let rp = r.push(recs.last());
                if rp.contains(y) {
                    let i = choose|i: int| 0 <= i < rp.len() && rp[i] == y;
                    if i < r.len() {
                        assert(r[i] == y);
                        assert(r.contains(y));
                    }
                }
                if r.contains(y) {
                    let i = choose|i: int| 0 <= i < r.len() && r[i] == y;
                    assert(rp[i] == y);
                }
                if y == recs.last() {
                    assert(rp[r.len() as int] == y);
                }
            }
        }
    }
}

/// A sharded listing gives the smallest shown keys: it is sorted by key,
/// has at most `limit` records, each a record whose key stays shown after
/// every shard's records and pending operations, and a shown record it
/// leaves out orders after every record it gives (so the result is full).
pub proof fn law_sharded_listing_gives_smallest(shards: Seq<(Seq<ObjectMeta>, Seq<(String, PendingOp)>)>, prefix: Seq<char>, limit: nat)
    ensures
        sharded_listing(shards, prefix, limit).len() <= limit,
        crate::listing::sorted_by_key(sharded_listing(shards, prefix, limit)),
        forall|i: int| 0 <= i < sharded_listing(shards, prefix, limit).len() ==>
            admit_shards(shards, prefix).1.contains((#[trigger] sharded_listing(shards, prefix, limit)[i]).key@),
        forall|y: ObjectMeta| #[trigger] admit_shards(shards, prefix).0.contains(y) && admit_shards(shards, prefix).1.contains(y.key@)
            && !(exists|i: int| 0 <= i < sharded_listing(shards, prefix, limit).len() && (#[trigger] sharded_listing(shards, prefix, limit)[i]).key@ == y.key@) ==> {
                &&& sharded_listing(shards, prefix, limit).len() == limit
                &&& forall|i: int| 0 <= i < sharded_listing(shards, prefix, limit).len() ==>
                    !crate::listing::bytes_lt(crate::listing::sort_key(y), crate::listing::sort_key(#[trigger] sharded_listing(shards, prefix, limit)[i]))
            },
{
    let st = admit_shards(shards, prefix);
    let sh = shown(st.0, st.1);
    lemma_shown_members(st.0, st.1);
    crate::listing::lemma_capped_sort_smallest(sh, limit);
    let r = sharded_listing(shards, prefix, limit);
    assert forall|i: int| 0 <= i < r.len() implies st.1.contains((#[trigger] r[i]).key@) by {
        assert(sh.contains(r[i]));
    }
    assert forall|y: ObjectMeta| #[trigger] st.0.contains(y) && st.1.contains(y.key@)
        && !(exists|i: int| 0 <= i < r.len() && (#[trigger] r[i]).key@ == y.key@) implies {
            &&& r.len() == limit
            &&& forall|i: int| 0 <= i < r.len() ==> !crate::listing::bytes_lt(crate::listing::sort_key(y), crate::listing::sort_key(#[trigger] r[i]))
        } by {
        assert(sh.contains(y));
        if r.contains(y) {
            let t = choose|t: int| 0 <= t < r.len() && r[t] == y;
            assert(r[t].key@ == y.key@);
        }
    }
}

/// Each shard's disk records paired with its pending operations.
pub open spec fn shard_inputs(disks: Seq<Vec<ObjectMeta>>, ents: Seq<Seq<(String, PendingOp)>>) -> Seq<(Seq<ObjectMeta>, Seq<(String, PendingOp)>)> {
    Seq::new(disks.len(), |i: int| (disks[i]@, ents[i]))
}

impl ShardManager {
    /// There is at least one shard, and a cache and a buffer for each.
    pub closed spec fn wf(&self) -> bool {
        &&& self.configs@.len() > 0
        &&& self.buffers@.len() == self.configs@.len()
        &&& self.caches@.len() == self.configs@.len()
    }

    /// The shards' files.
    pub closed spec fn shard_configs(&self) -> Seq<ShardConfig> {
        self.configs@
    }

    /// The number of shards.
    pub closed spec fn shard_count(&self) -> nat {
        self.configs@.len()
    }

    /// The operations pending in shard `s`.
    pub closed spec fn pending(&self, s: int) -> Map<Seq<char>, PendingOp> {
        self.buffers@[s].ops()
    }

    /// Operations submitted to shard `s` since its last flush.
    pub closed spec fn submitted(&self, s: int) -> u64 {
        self.buffers@[s].count()
    }

    /// The values cached for shard `s`.
    pub closed spec fn cached(&self, s: int) -> Map<Seq<char>, Seq<u8>> {
        shard_cache_contents(self.caches@[s])
    }

    /// The most values a shard's cache takes.
    pub closed spec fn cache_limit(&self) -> usize {
        self.cache_size
    }

    /// How keys are assigned to shards.
    pub closed spec fn strategy_of(&self) -> ShardStrategy {
        self.strategy
    }

    /// A manager of the shards `configs`, each with an empty cache of at most
    /// `cache_size` values and an empty write buffer; no shard is refused.
    pub fn open(configs: Vec<ShardConfig>, cache_size: usize) -> (r: Result<Self, StoreError>)
        ensures
            configs@.len() == 0 <==> r is Err,
            r matches Err(e) ==> e is InvalidArgument,
            r matches Ok(m) ==> {
                &&& m.wf()
                &&& m.shard_configs() == configs@
                &&& m.cache_limit() == cache_size
                &&& m.strategy_of() == ShardStrategy::Hash
                &&& forall|s: int| 0 <= s < configs@.len() ==> (#[trigger] m.pending(s)).dom().is_empty() && m.cached(s).dom().is_empty()
            },
    {
        if configs.len() == 0 {
            return Err(StoreError::InvalidArgument("至少需要一个分片配置".to_owned()));
        }
        let n = configs.len();
        let mut buffers: Vec<WriteBuffer> = Vec::new();
        let mut caches: Vec<ShardCache> = Vec::new();
        let mut i: usize = 0;
        while i < n
            invariant
                i <= n,
                buffers@.len() == i,
                caches@.len() == i,
                forall|s: int| 0 <= s < i ==> (#[trigger] buffers@[s]).ops().dom().is_empty() && shard_cache_contents(caches@[s]).dom().is_empty(),
            decreases n - i,
        {
            buffers.push(WriteBuffer::new());
            caches.push(shard_cache_new(cache_size));
            i = i + 1;
        }
        Ok(ShardManager { configs, strategy: ShardStrategy::Hash, buffers, caches, cache_size })
    }

    /// The number of shards.
    pub fn num_shards(&self) -> (n: usize)
        ensures
            n == self.shard_count(),
    {
        self.configs.len()
    }

    /// Uses `strategy` from now on.
    pub fn set_strategy(&mut self, strategy: ShardStrategy)
        ensures
            final(self).strategy_of() == strategy,
            final(self).shard_configs() == old(self).shard_configs(),
            final(self).wf() == old(self).wf(),
            forall|s: int| #[trigger] final(self).pending(s) == old(self).pending(s) && final(self).cached(s) == old(self).cached(s),
            final(self).cache_limit() == old(self).cache_limit(),
    {
        self.strategy = strategy;
    }

    /// The shard `key` belongs to.
    pub fn route(&self, key: &str) -> (s: usize)
        requires
            self.wf(),
        ensures
            s == shard_of(key@, self.shard_count()),
            s < self.shard_count(),
    {
        match self.strategy {
            ShardStrategy::Hash => shard_index(key, self.configs.len()),
        }
    }

    /// The files of shard `index`; an index past the last shard is refused.
    pub fn shard(&self, index: usize) -> (r: Result<&ShardConfig, StoreError>)
        ensures
            index < self.shard_count() <==> r is Ok,
            r matches Ok(c) ==> *c == self.shard_configs()[index as int],
            r matches Err(e) ==> e is InvalidArgument,
    {
        if index < self.configs.len() {
            Ok(&self.configs[index])
        } else {
            let i = decimal_string(index as u64);
            let n = decimal_string(self.configs.len() as u64);
            let head = crate::text::concat3("分片索引 ", i.as_str(), " 超出范围 (0..");
            let msg = crate::text::concat3(head.as_str(), n.as_str(), ")");
            Err(StoreError::InvalidArgument(msg))
        }
    }

    /// The files of every shard.
    pub fn shards(&self) -> (r: &Vec<ShardConfig>)
        ensures
            r@ == self.shard_configs(),
    {
        &self.configs
    }

    fn put_in_shard(&mut self, s: usize, key: String, value: Vec<u8>, meta: ObjectMeta)
        requires
            old(self).wf(),
            s < old(self).shard_count(),
        ensures
            final(self).wf(),
            final(self).shard_configs() == old(self).shard_configs(),
            final(self).cache_limit() == old(self).cache_limit(),
            final(self).strategy_of() == old(self).strategy_of(),
            final(self).pending(s as int) == old(self).pending(s as int).insert(key@, PendingOp::Put { value, meta }),
            final(self).cached(s as int) == (if old(self).cached(s as int).len() < old(self).cache_limit() {
                old(self).cached(s as int).insert(key@, value@)
            } else {
                old(self).cached(s as int)
            }),
            forall|t: int| 0 <= t < old(self).shard_count() && t != s ==> #[trigger] final(self).pending(t) == old(self).pending(t) && final(self).cached(t) == old(self).cached(t),
    {
        let ghost bs = self.buffers@;
        let ghost cs = self.caches@;
        let mut cache = self.caches.remove(s);
        if shard_cache_len(&cache) < self.cache_size {
            shard_cache_insert(&mut cache, copy_string(&key), copy_bytes(&value));
        }
        self.caches.insert(s, cache);
        assert forall|t: int| 0 <= t < cs.len() && t != s implies self.caches@[t] == cs[t] by {
            if t < s {
            } else {
            }
        }
        let mut buffer = self.buffers.remove(s);
        buffer.submit_put(key, value, meta);
        self.buffers.insert(s, buffer);
        assert forall|t: int| 0 <= t < bs.len() && t != s implies self.buffers@[t] == bs[t] by {
            if t < s {
            } else {
            }
        }
    }

    /// Writes `value` under `key` in its shard: the value is cached while the
    /// shard's cache has room, and a put is queued for the flusher; the
    /// returned metadata is what the put records.
    pub fn put(&mut self, key: String, value: Vec<u8>, content_type: Option<String>, tags: Option<String>) -> (m: ObjectMeta)
        requires
            old(self).wf(),
        ensures
            final(self).wf(),
            final(self).shard_configs() == old(self).shard_configs(),
            final(self).cache_limit() == old(self).cache_limit(),
            final(self).strategy_of() == old(self).strategy_of(),
            fresh_meta(m, key@, value@.len(), m.created_at@, opt_view(content_type), opt_view(tags)),
            ({
                let s = shard_of(key@, old(self).shard_count()) as int;
                shard_put_done(old(self).cached(s), old(self).pending(s), final(self).cached(s), final(self).pending(s), key@, value@, old(self).cache_limit())
            }),
            ({
                let s = shard_of(key@, old(self).shard_count()) as int;
                &&& final(self).pending(s).contains_key(key@)
                &&& final(self).pending(s)[key@] matches PendingOp::Put { value: v, meta } && v@ == value@ && same_meta(meta, m)
                &&& forall|k: Seq<char>| k != key@ ==> #[trigger] final(self).pending(s).contains_key(k) == old(self).pending(s).contains_key(k)
                    && (old(self).pending(s).contains_key(k) ==> final(self).pending(s)[k] == old(self).pending(s)[k])
                &&& final(self).cached(s) == (if old(self).cached(s).len() < old(self).cache_limit() {
                    old(self).cached(s).insert(key@, value@)
                } else {
                    old(self).cached(s)
                })
                &&& forall|t: int| 0 <= t < old(self).shard_count() && t != s ==> #[trigger] final(self).pending(t) == old(self).pending(t) && final(self).cached(t) == old(self).cached(t)
            }),
    {
        let now = now_rfc3339();
        self.put_at(key, value, content_type, tags, &now)
    }

    fn put_at(&mut self, key: String, value: Vec<u8>, content_type: Option<String>, tags: Option<String>, now: &String) -> (m: ObjectMeta)
        requires
            old(self).wf(),
        ensures
            final(self).wf(),
            final(self).shard_configs() == old(self).shard_configs(),
            final(self).cache_limit() == old(self).cache_limit(),
            final(self).strategy_of() == old(self).strategy_of(),
            fresh_meta(m, key@, value@.len(), now@, opt_view(content_type), opt_view(tags)),
            ({
                let s = shard_of(key@, old(self).shard_count()) as int;
                &&& final(self).pending(s).contains_key(key@)
                &&& final(self).pending(s)[key@] matches PendingOp::Put { value: v, meta } && v@ == value@ && same_meta(meta, m)
                &&& forall|k: Seq<char>| k != key@ ==> #[trigger] final(self).pending(s).contains_key(k) == old(self).pending(s).contains_key(k)
                    && (old(self).pending(s).contains_key(k) ==> final(self).pending(s)[k] == old(self).pending(s)[k])
                &&& final(self).cached(s) == (if old(self).cached(s).len() < old(self).cache_limit() {
                    old(self).cached(s).insert(key@, value@)
                } else {
                    old(self).cached(s)
                })
                &&& forall|t: int| 0 <= t < old(self).shard_count() && t != s ==> #[trigger] final(self).pending(t) == old(self).pending(t) && final(self).cached(t) == old(self).cached(t)
            }),
    {
        let s = self.route(key.as_str());
        let meta = ObjectMeta {
            key: copy_string(&key),
            size: value.len() as u64,
            created_at: copy_string(now),
            updated_at: copy_string(now),
            content_type,
            tags,
            checksum: None,
            storage_node: None,
        };
        let stored = copy_meta(&meta);
        let ghost v = value;
        let ghost st = stored;
        self.put_in_shard(s, key, value, stored);
        assert(self.pending(s as int)[meta.key@] == PendingOp::Put { value: v, meta: st });
        meta
    }

    /// Writes every item in its shard with one shared timestamp, as
    /// successive puts do; returns the metadata of each, in order.
    pub fn put_batch(&mut self, items: Vec<(String, Vec<u8>, Option<String>, Option<String>)>) -> (ms: Vec<ObjectMeta>)
        requires
            old(self).wf(),
        ensures
            final(self).wf(),
            final(self).shard_configs() == old(self).shard_configs(),
            ms@.len() == items@.len(),
            forall|i: int| 0 <= i < items@.len() ==> fresh_meta(#[trigger] ms@[i], items@[i].0@, items@[i].1@.len(),
                ms@[0].created_at@, opt_view(items@[i].2), opt_view(items@[i].3)),
            forall|i: int| 0 <= i < items@.len() ==> #[trigger] final(self).pending(shard_of(items@[i].0@, old(self).shard_count()) as int).contains_key(items@[i].0@),
            forall|i: int| 0 <= i < items@.len() && crate::store::last_with_key(items@, i, items@.len() as int) ==>
                crate::store::is_put_of(#[trigger] final(self).pending(shard_of(items@[i].0@, old(self).shard_count()) as int)[items@[i].0@], items@[i].1@, ms@[i]),
            forall|t: int, k: Seq<char>| 0 <= t < old(self).shard_count() && crate::store::key_absent(items@, items@.len() as int, k) ==>
                #[trigger] final(self).pending(t).contains_key(k) == old(self).pending(t).contains_key(k)
                && (old(self).pending(t).contains_key(k) ==> final(self).pending(t)[k] == old(self).pending(t)[k]),
    {
        let now = now_rfc3339();
        let ghost its = items@;
        let ghost n0 = self.shard_count();
        let mut items = items;
        let mut ms: Vec<ObjectMeta> = Vec::new();
        let total = items.len();
        let mut n: usize = 0;
        while n < total
            invariant
                self.wf(),
                self.shard_count() == n0,
                self.shard_configs() == old(self).shard_configs(),
                total == its.len(),
                n <= total,
                items@ == its.skip(n as int),
                ms@.len() == n,
                forall|i: int| 0 <= i < n ==> fresh_meta(#[trigger] ms@[i], its[i].0@, its[i].1@.len(), now@, opt_view(its[i].2), opt_view(its[i].3)),
                forall|i: int| 0 <= i < n ==> #[trigger] self.pending(shard_of(its[i].0@, n0) as int).contains_key(its[i].0@),
                forall|i: int| 0 <= i < n && crate::store::last_with_key(its, i, n as int) ==>
                    crate::store::is_put_of(#[trigger] self.pending(shard_of(its[i].0@, n0) as int)[its[i].0@], its[i].1@, ms@[i]),
                forall|t: int, k: Seq<char>| 0 <= t < n0 && crate::store::key_absent(its, n as int, k) ==>
                    #[trigger] self.pending(t).contains_key(k) == old(self).pending(t).contains_key(k)
                    && (old(self).pending(t).contains_key(k) ==> self.pending(t)[k] == old(self).pending(t)[k]),
            decreases total - n,
        {
            assert(its.skip(n as int)[0] == its[n as int]);
            let (key, value, content_type, tags) = items.remove(0);
            assert(items@ =~= its.skip(n + 1));
            let ghost prev = *self;
            let ghost prev_ms = ms@;
            let m = self.put_at(key, value, content_type, tags, &now);
            assert forall|i: int| 0 <= i < n + 1 implies #[trigger] self.pending(shard_of(its[i].0@, n0) as int).contains_key(its[i].0@) by {
                if i < n {
                    let t = shard_of(its[i].0@, n0) as int;
                    assert(prev.pending(t).contains_key(its[i].0@));
                }
            }
            ms.push(m);
            assert forall|i: int| 0 <= i < n + 1 && crate::store::last_with_key(its, i, n + 1) implies
                crate::store::is_put_of(#[trigger] self.pending(shard_of(its[i].0@, n0) as int)[its[i].0@], its[i].1@, ms@[i]) by {
                if i < n {
                    let t = shard_of(its[i].0@, n0) as int;
                    assert(its[n as int].0@ != its[i].0@);
                    assert(crate::store::last_with_key(its, i, n as int));
                    assert(prev.pending(t).contains_key(its[i].0@));
                    assert(crate::store::is_put_of(prev.pending(t)[its[i].0@], its[i].1@, prev_ms[i]));
                    assert(self.pending(t).contains_key(its[i].0@));
                    assert(self.pending(t)[its[i].0@] == prev.pending(t)[its[i].0@]);
                    assert(ms@[i] == prev_ms[i]);
                }
            }
            assert forall|t: int, k: Seq<char>| 0 <= t < n0 && crate::store::key_absent(its, n + 1, k) implies
                #[trigger] self.pending(t).contains_key(k) == old(self).pending(t).contains_key(k)
                && (old(self).pending(t).contains_key(k) ==> self.pending(t)[k] == old(self).pending(t)[k]) by {
                assert(its[n as int].0@ != k);
                assert(prev.pending(t).contains_key(k) == old(self).pending(t).contains_key(k));
                assert(self.pending(t).contains_key(k) == prev.pending(t).contains_key(k));
            }
            n = n + 1;
        }
        ms
    }

    /// Deletes `key` in its shard: its cached value is dropped and a delete
    /// is queued.
    pub fn delete(&mut self, key: &str)
        requires
            old(self).wf(),
        ensures
            final(self).wf(),
            final(self).shard_configs() == old(self).shard_configs(),
            final(self).cache_limit() == old(self).cache_limit(),
            final(self).strategy_of() == old(self).strategy_of(),
            ({
                let s = shard_of(key@, old(self).shard_count()) as int;
                &&& final(self).pending(s) == old(self).pending(s).insert(key@, PendingOp::Delete)
                &&& final(self).cached(s) == old(self).cached(s).remove(key@)
                &&& forall|t: int| 0 <= t < old(self).shard_count() && t != s ==> #[trigger] final(self).pending(t) == old(self).pending(t) && final(self).cached(t) == old(self).cached(t)
            }),
    {
        let s = self.route(key);
        let ghost bs = self.buffers@;
        let ghost cs = self.caches@;
        let mut cache = self.caches.remove(s);
        shard_cache_remove(&mut cache, key);
        self.caches.insert(s, cache);
        assert forall|t: int| 0 <= t < cs.len() && t != s implies self.caches@[t] == cs[t] by {
            if t < s {
            } else {
            }
        }
        let mut buffer = self.buffers.remove(s);
        buffer.submit_delete(key.to_owned());
        self.buffers.insert(s, buffer);
        assert forall|t: int| 0 <= t < bs.len() && t != s implies self.buffers@[t] == bs[t] by {
            if t < s {
            } else {
            }
        }
    }

    /// Where a read of `key` finds it first: the shard's cache, then a put
    /// pending in the shard's buffer, else the shard's databases.
    pub fn lookup(&self, key: &str) -> (r: (usize, ShardLookup))
        requires
            self.wf(),
        ensures
            r.0 == shard_of(key@, self.shard_count()),
            crate::store::read_answer(self.cached(r.0 as int), self.pending(r.0 as int), key@, r.1),
            ({
                let s = r.0 as int;
                if self.cached(s).contains_key(key@) {
                    r.1 matches ShardLookup::Cached(v) && v@ == self.cached(s)[key@]
                } else if self.pending(s).contains_key(key@) && self.pending(s)[key@] is Put {
                    r.1 matches ShardLookup::Pending(v, m)
                        && (self.pending(s)[key@] matches PendingOp::Put { value, meta } && v@ == value@ && same_meta(m, meta))
                } else {
                    r.1 is OnDisk
                }
            }),
    {
        let s = self.route(key);
        match shard_cache_get(&self.caches[s], key) {
            Some(v) => (s, ShardLookup::Cached(v)),
            None => match self.buffers[s].get(key) {
                Some(PendingOp::Put { value, meta }) => {
                    let v = copy_bytes(&value);
                    let m = copy_meta(&meta);
                    (s, ShardLookup::Pending(v, m))
                },
                _ => (s, ShardLookup::OnDisk),
            },
        }
    }

    /// The metadata of a put pending for `key`, if there is one.
    pub fn pending_meta(&self, key: &str) -> (r: Option<ObjectMeta>)
        requires
            self.wf(),
        ensures
            ({
                let s = shard_of(key@, self.shard_count()) as int;
                match r {
                    Some(m) => self.pending(s).contains_key(key@) && (self.pending(s)[key@] matches PendingOp::Put { meta, .. } && same_meta(m, meta)),
                    None => !(self.pending(s).contains_key(key@) && self.pending(s)[key@] is Put),
                }
            }),
    {
        let s = self.route(key);
        match self.buffers[s].get(key) {
            Some(PendingOp::Put { meta, .. }) => Some(copy_meta(&meta)),
            _ => None,
        }
    }

    /// Caches a value read from disk, while the shard's cache has room.
    pub fn remember(&mut self, key: String, value: Vec<u8>)
        requires
            old(self).wf(),
        ensures
            final(self).wf(),
            final(self).shard_configs() == old(self).shard_configs(),
            final(self).cache_limit() == old(self).cache_limit(),
            final(self).strategy_of() == old(self).strategy_of(),
            forall|t: int| #[trigger] final(self).pending(t) == old(self).pending(t),
            ({
                let s = shard_of(key@, old(self).shard_count()) as int;
                &&& final(self).cached(s) == (if old(self).cached(s).len() < old(self).cache_limit() {
                    old(self).cached(s).insert(key@, value@)
                } else {
                    old(self).cached(s)
                })
                &&& forall|t: int| 0 <= t < old(self).shard_count() && t != s ==> #[trigger] final(self).cached(t) == old(self).cached(t)
            }),
    {
        let s = self.route(key.as_str());
        let ghost cs = self.caches@;
        let mut cache = self.caches.remove(s);
        if shard_cache_len(&cache) < self.cache_size {
            shard_cache_insert(&mut cache, key, value);
        }
        self.caches.insert(s, cache);
        assert forall|t: int| 0 <= t < cs.len() && t != s implies self.caches@[t] == cs[t] by {
            if t < s {
            } else {
            }
        }
        assert(self.buffers@ == old(self).buffers@);
    }

    /// Whether `key` exists, when memory alone can tell: a pending put says
    /// yes, a pending delete says no, a cached value says yes; `None` means
    /// only the shard's databases can answer.
    pub fn exists_in_memory(&self, key: &str) -> (r: Option<bool>)
        requires
            self.wf(),
        ensures
            ({
                let s = shard_of(key@, self.shard_count()) as int;
                if self.pending(s).contains_key(key@) {
                    r == Some(self.pending(s)[key@] is Put)
                } else if self.cached(s).contains_key(key@) {
                    r == Some(true)
                } else {
                    r is None
                }
            }),
    {
        let s = self.route(key);
        match self.buffers[s].get(key) {
            Some(PendingOp::Put { .. }) => Some(true),
            Some(PendingOp::Delete) => Some(false),
            None => match shard_cache_get(&self.caches[s], key) {
                Some(_) => Some(true),
                None => None,
            },
        }
    }

    /// Operations submitted to shard `s` since its last flush.
    pub fn pending_len(&self, s: usize) -> (n: u64)
        requires
            self.wf(),
            s < self.shard_count(),
        ensures
            n == self.submitted(s as int),
    {
        self.buffers[s].pending_len()
    }

    /// Takes everything pending in shard `s` for one flush, leaving its
    /// buffer empty.
    pub fn take_flush_batch(&mut self, s: usize) -> (b: FlushBatch)
        requires
            old(self).wf(),
            s < old(self).shard_count(),
        ensures
            final(self).wf(),
            final(self).shard_configs() == old(self).shard_configs(),
            final(self).cache_limit() == old(self).cache_limit(),
            final(self).pending(s as int).dom().is_empty(),
            forall|t: int| #[trigger] final(self).cached(t) == old(self).cached(t),
            forall|t: int| 0 <= t < old(self).shard_count() && t != s ==> #[trigger] final(self).pending(t) == old(self).pending(t),
            exists|ops: Seq<(String, PendingOp)>| distinct_keys(ops) && entries_map(ops) == old(self).pending(s as int) && {
                &&& b.put_kvs@.len() == puts_of(ops).len()
                &&& b.put_metas@.len() == puts_of(ops).len()
                &&& forall|i: int| 0 <= i < puts_of(ops).len() ==> {
                    &&& (#[trigger] b.put_kvs@[i]).0@ == puts_of(ops)[i].0
                    &&& b.put_kvs@[i].1@ == puts_of(ops)[i].1
                    &&& b.put_metas@[i] == puts_of(ops)[i].2
                }
                &&& b.del_keys@.len() == deletes_of(ops).len()
                &&& forall|i: int| 0 <= i < deletes_of(ops).len() ==> (#[trigger] b.del_keys@[i])@ == deletes_of(ops)[i]
            },
    {
        let ghost bs = self.buffers@;
        let mut buffer = self.buffers.remove(s);
        let ops = buffer.drain();
        self.buffers.insert(s, buffer);
        assert forall|t: int| 0 <= t < bs.len() && t != s implies self.buffers@[t] == bs[t] by {
            if t < s {
            } else {
            }
        }
        assert(self.pending(s as int).dom() =~= Set::<Seq<char>>::empty());
        split_flush_ops(ops)
    }
}

impl ShardManager {
    /// The listing of `prefix` across shards, `disks[s]` being what shard
    /// `s`'s metadata database returned for it: each shard's records, then
    /// its pending puts and deletes, decide which keys show; the result is
    /// sorted by key and cut to `limit`.
    pub fn list(&self, disks: Vec<Vec<ObjectMeta>>, prefix: &str, limit: usize) -> (r: Vec<ObjectMeta>)
        requires
            self.wf(),
            disks@.len() == self.shard_count(),
        ensures
            exists|ents: Seq<Seq<(String, PendingOp)>>| {
                &&& ents.len() == self.shard_count()
                &&& forall|s: int| 0 <= s < ents.len() ==> distinct_keys(#[trigger] ents[s]) && entries_map(ents[s]) == self.pending(s)
                &&& r@ == sharded_listing(shard_inputs(disks@, ents), prefix@, limit as nat)
            },
            all_under(r@, prefix@),
    {
        let ghost d0 = disks@;
        let n = self.configs.len();
        let mut disks = disks;
        let mut seen: StringHashMap<bool> = StringHashMap::new();
        let mut all: Vec<ObjectMeta> = Vec::new();
        let ghost mut ents_acc: Seq<Seq<(String, PendingOp)>> = Seq::empty();
        let mut s: usize = 0;
        assert(shard_inputs(d0, ents_acc).take(0) =~= Seq::<(Seq<ObjectMeta>, Seq<(String, PendingOp)>)>::empty());
        assert(seen@.dom() =~= Set::<Seq<char>>::empty());
        while s < n
            invariant
                self.wf(),
                n == self.shard_count(),
                d0.len() == n,
                s <= n,
                disks@ == d0.skip(s as int),
                ents_acc.len() == s,
                forall|t: int| 0 <= t < s ==> distinct_keys(#[trigger] ents_acc[t]) && entries_map(ents_acc[t]) == self.pending(t),
                (all@, seen@.dom()) == admit_shards(shard_inputs(d0.take(s as int), ents_acc), prefix@),
            decreases n - s,
        {
            assert(d0.skip(s as int)[0] == d0[s as int]);
            let mut disk = disks.remove(0);
            assert(disks@ =~= d0.skip(s + 1));
            let ghost dv = disk@;
            let ghost base: ListState = (all@, seen@.dom());
            let mut i: usize = 0;
            let dn = disk.len();
            assert(dv.take(0) =~= Seq::<ObjectMeta>::empty());
            while i < dn
                invariant
                    dn == dv.len(),
                    i <= dn,
                    disk@ == dv.skip(i as int),
                    (all@, seen@.dom()) == admit_prefixed(base, dv.take(i as int), prefix@),
                decreases dn - i,
            {
                assert(dv.take(i + 1).drop_last() =~= dv.take(i as int));
                assert(dv.take(i + 1).last() == dv[i as int]);
                assert(dv.skip(i as int)[0] == dv[i as int]);
                let rec = disk.remove(0);
                assert(disk@ =~= dv.skip(i + 1));
                if starts_with(rec.key.as_str(), prefix) && !seen.contains_key(rec.key.as_str()) {
                    seen.insert(copy_string(&rec.key), true);
                    assert(seen@.dom() =~= admit_prefixed(base, dv.take(i as int), prefix@).1.insert(dv[i as int].key@));
                    all.push(rec);
                }
                i = i + 1;
            }
            assert(dv.take(i as int) =~= dv);
            let mut ents = self.buffers[s].snapshot();
            let ghost ev = ents@;
            let ghost mid: ListState = (all@, seen@.dom());
            let mut j: usize = 0;
            let en = ents.len();
            assert(ev.take(0) =~= Seq::<(String, PendingOp)>::empty());
            while j < en
                invariant
                    en == ev.len(),
                    j <= en,
                    ents@ == ev.skip(j as int),
                    (all@, seen@.dom()) == admit_pending(mid, ev.take(j as int), prefix@),
                decreases en - j,
            {
                assert(ev.take(j + 1).drop_last() =~= ev.take(j as int));
                assert(ev.take(j + 1).last() == ev[j as int]);
                assert(ev.skip(j as int)[0] == ev[j as int]);
                let (k, op) = ents.remove(0);
                assert(ents@ =~= ev.skip(j + 1));
                if starts_with(k.as_str(), prefix) {
                    match op {
                        PendingOp::Put { value: _, meta } => {
                            if !seen.contains_key(k.as_str()) {
                                let ghost kv = k@;
                                seen.insert(k, true);
                                assert(seen@.dom() =~= admit_pending(mid, ev.take(j as int), prefix@).1.insert(kv));
                                all.push(meta);
                            }
                        },
                        PendingOp::Delete => {
                            seen.remove(k.as_str());
                            assert(seen@.dom() =~= admit_pending(mid, ev.take(j as int), prefix@).1.remove(k@));
                        },
                    }
                }
                j = j + 1;
            }
            assert(ev.take(j as int) =~= ev);
            proof {
                let before = ents_acc;
                ents_acc = ents_acc.push(ev);
                let ins1 = shard_inputs(d0.take(s + 1), ents_acc);
                assert(ins1.drop_last() =~= shard_inputs(d0.take(s as int), before));
                assert(ins1.last() == (dv, ev));
            }
            s = s + 1;
        }
        assert(d0.take(n as int) =~= d0);
        let ghost st: ListState = (all@, seen@.dom());
        let ghost av = all@;
        let mut result: Vec<ObjectMeta> = Vec::new();
        let mut m: usize = 0;
        let an = all.len();
        assert(av.take(0) =~= Seq::<ObjectMeta>::empty());
        while m < an
            invariant
                st == (av, seen@.dom()),
                an == av.len(),
                m <= an,
                all@ == av.skip(m as int),
                result@ == sort_by_key(shown(av.take(m as int), st.1)),
            decreases an - m,
        {
            let ghost t = av.take(m as int);
            assert(av.take(m + 1).drop_last() =~= t);
            assert(av.take(m + 1).last() == av[m as int]);
            assert(av.skip(m as int)[0] == av[m as int]);
            let item = all.remove(0);
            assert(all@ =~= av.skip(m + 1));
            if seen.contains_key(item.key.as_str()) {
                assert(shown(av.take(m + 1), st.1) == shown(t, st.1).push(av[m as int]));
                assert(shown(t, st.1).push(av[m as int]).drop_last() =~= shown(t, st.1));
                insert_in_order(&mut result, item);
            }
            m = m + 1;
        }
        assert(av.take(m as int) =~= av);
        result.truncate(limit);
        assert(result@ =~= capped(sort_by_key(shown(st.0, st.1)), limit as nat));
        proof {
            lemma_sharded_listing_under(shard_inputs(d0, ents_acc), prefix@, limit as nat);
        }
        result
    }
}

/// The items of `items` whose key belongs to shard `s` of `n`, in order.
pub open spec fn in_shard<T>(items: Seq<(String, T)>, s: nat, n: nat) -> Seq<(String, T)>
    decreases items.len(),
{
    if items.len() == 0 {
        Seq::empty()
    } else if shard_of(items.last().0@, n) == s {
        in_shard(items.drop_last(), s, n).push(items.last())
    } else {
        in_shard(items.drop_last(), s, n)
    }
}

/// Splits `items` by the shard of their key among `n` shards, keeping
/// their order within each shard.
pub fn group_by_shard<T>(items: Vec<(String, T)>, n: usize) -> (g: Vec<Vec<(String, T)>>)
    requires
        n > 0,
    ensures
        g@.len() == n,
        forall|s: int| 0 <= s < n ==> (#[trigger] g@[s])@ == in_shard(items@, s as nat, n as nat),
{
    let ghost its = items@;
    let mut groups: Vec<Vec<(String, T)>> = Vec::new();
    let mut i: usize = 0;
    while i < n
        invariant
            i <= n,
            groups@.len() == i,
            forall|s: int| 0 <= s < i ==> (#[trigger] groups@[s])@ == Seq::<(String, T)>::empty(),
        decreases n - i,
    {
        groups.push(Vec::new());
        i = i + 1;
    }
    assert(its.take(0) =~= Seq::<(String, T)>::empty());
    let mut items = items;
    let total = items.len();
    let mut k: usize = 0;
    while k < total
        invariant
            total == its.len(),
            k <= total,
            items@ == its.skip(k as int),
            groups@.len() == n,
            n > 0,
            forall|s: int| 0 <= s < n ==> (#[trigger] groups@[s])@ == in_shard(its.take(k as int), s as nat, n as nat),
        decreases total - k,
    {
        assert(its.skip(k as int)[0] == its[k as int]);
        let item = items.remove(0);
        assert(items@ =~= its.skip(k + 1));
        assert(its.take(k + 1).drop_last() =~= its.take(k as int));
        assert(its.take(k + 1).last() == its[k as int]);
        let idx = shard_index(item.0.as_str(), n);
        let ghost gs = groups@;
        let mut g = groups.remove(idx);
        g.push(item);
        groups.insert(idx, g);
        assert forall|s: int| 0 <= s < n implies (#[trigger] groups@[s])@ == in_shard(its.take(k + 1), s as nat, n as nat) by {
            if s != idx as int {
                assert(groups@[s] == gs[s]);
            }
        }
        k = k + 1;
    }
    assert(its.take(k as int) =~= its);
    groups
}

} // verus!
