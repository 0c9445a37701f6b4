//! The write-coalescing buffer: puts and deletes are recorded in memory,
//! keyed by object key with the latest operation winning, until a flusher
//! drains them to disk in one batch.

use crate::meta::ObjectMeta;
use dashmap::DashMap;
use vstd::prelude::*;

verus! {

/// An operation waiting to be written to disk.
#[derive(Debug, Clone)]
pub enum PendingOp {
    Put { value: Vec<u8>, meta: ObjectMeta },
    Delete,
}

#[verifier::external_type_specification]
#[verifier::external_body]
#[verifier::reject_recursive_types(K)]
#[verifier::reject_recursive_types(V)]
#[verifier::reject_recursive_types(S)]
pub struct ExDashMap<K, V, S>(DashMap<K, V, S>);

/// Concurrent map from object key to its pending operation.
pub type PendingMap = DashMap<String, PendingOp>;

/// What a pending-operation map holds: key text to operation.
pub uninterp spec fn pending_contents(m: PendingMap) -> Map<Seq<char>, PendingOp>;

/// The map with no pending operation.
pub open spec fn no_ops() -> Map<Seq<char>, PendingOp> {
    Map::empty()
}

/// `DashMap::new`: the new map holds nothing.
#[verifier::external_body]
fn pending_map_new() -> (fresh: PendingMap)
    ensures
        pending_contents(fresh) == no_ops(),
{
    DashMap::new()
}

/// `DashMap::insert`: afterwards `key` maps to `op`, every other key as before.
#[verifier::external_body]
fn pending_map_insert(m: &mut PendingMap, key: String, op: PendingOp)
    ensures
        pending_contents(*final(m)) == pending_contents(*old(m)).insert(key@, op),
{
    m.insert(key, op);
}

/// `DashMap::get`, the operation cloned out of the guard: the operation
/// stored under `key`, or `None` when there is none.
#[verifier::external_body]
fn pending_map_get(m: &PendingMap, key: &str) -> (r: Option<PendingOp>)
    ensures
        match r {
            Some(op) => pending_contents(*m).contains_key(key@) && op == pending_contents(*m)[key@],
            None => !pending_contents(*m).contains_key(key@),
        },
{
    match m.get(key) {
        Some(entry) => Some(entry.value().clone()),
        None => None,
    }
}

/// `DashMap::remove`: the entry under `key` is taken out and returned.
#[verifier::external_body]
fn pending_map_remove(m: &mut PendingMap, key: &str) -> (r: Option<(String, PendingOp)>)
    ensures
        pending_contents(*final(m)) == pending_contents(*old(m)).remove(key@),
        match r {
            Some((k, op)) => k@ == key@ && pending_contents(*old(m)).contains_key(key@)
                && op == pending_contents(*old(m))[key@],
            None => !pending_contents(*old(m)).contains_key(key@),
        },
{
    m.remove(key)
}

/// `DashMap::iter`, keeping each entry's key: every key of the map once.
#[verifier::external_body]
fn pending_map_keys(m: &PendingMap) -> (ks: Vec<String>)
    ensures
        forall|i: int, j: int| 0 <= i < j < ks@.len() ==> ks@[i]@ != ks@[j]@,
        forall|i: int| 0 <= i < ks@.len() ==> pending_contents(*m).contains_key(#[trigger] ks@[i]@),
        forall|k: Seq<char>| pending_contents(*m).contains_key(k) ==> exists|i: int| 0 <= i < ks@.len() && #[trigger] ks@[i]@ == k,
{
    m.iter().map(|entry| entry.key().clone()).collect()
}

/// Keys of a list of drained entries are pairwise distinct.
pub open spec fn distinct_keys(ops: Seq<(String, PendingOp)>) -> bool {
    forall|i: int, j: int| 0 <= i < j < ops.len() ==> ops[i].0@ != ops[j].0@
}

/// The map a list of entries with distinct keys stands for.
pub open spec fn entries_map(ops: Seq<(String, PendingOp)>) -> Map<Seq<char>, PendingOp> {
    Map::new(
        |k: Seq<char>| exists|i: int| 0 <= i < ops.len() && ops[i].0@ == k,
        |k: Seq<char>| ops[choose|i: int| 0 <= i < ops.len() && ops[i].0@ == k].1,
    )
}

/// Write-coalescing buffer: the latest pending operation for each key,
/// plus the number of operations and value bytes submitted since the last
/// drain (both counters wrap on overflow, as atomic adds do).
pub struct WriteBuffer {
    pending: PendingMap,
    pending_count: u64,
    pending_bytes: u64,
}

impl WriteBuffer {
    /// The latest pending operation for each key.
    pub closed spec fn ops(&self) -> Map<Seq<char>, PendingOp> {
        pending_contents(self.pending)
    }

    /// Operations submitted since the last drain.
    pub closed spec fn count(&self) -> u64 {
        self.pending_count
    }

    /// Value bytes submitted since the last drain.
    pub closed spec fn bytes(&self) -> u64 {
        self.pending_bytes
    }

    /// An empty buffer.
    pub fn new() -> (b: Self)
        ensures
            b.ops() == no_ops(),
            b.count() == 0,
            b.bytes() == 0,
    {
        WriteBuffer { pending: pending_map_new(), pending_count: 0, pending_bytes: 0 }
    }

    /// Records a put of `value` under `key`, replacing any pending operation
    /// for that key.
    pub fn submit_put(&mut self, key: String, value: Vec<u8>, meta: ObjectMeta)
        ensures
            final(self).ops() == old(self).ops().insert(key@, PendingOp::Put { value, meta }),
            final(self).count() == (old(self).count() + 1) % 0x1_0000_0000_0000_0000,
            final(self).bytes() == (old(self).bytes() + value@.len()) % 0x1_0000_0000_0000_0000,
    {
        let len = value.len() as u64;
        pending_map_insert(&mut self.pending, key, PendingOp::Put { value, meta });
        self.pending_count = self.pending_count.wrapping_add(1);
        self.pending_bytes = self.pending_bytes.wrapping_add(len);
    }

    /// Records a delete of `key`, replacing any pending operation for it.
    pub fn submit_delete(&mut self, key: String)
        ensures
            final(self).ops() == old(self).ops().insert(key@, PendingOp::Delete),
            final(self).count() == (old(self).count() + 1) % 0x1_0000_0000_0000_0000,
            final(self).bytes() == old(self).bytes(),
    {
        pending_map_insert(&mut self.pending, key, PendingOp::Delete);
        self.pending_count = self.pending_count.wrapping_add(1);
    }

    /// The pending operation for `key`, if any.
    pub fn get(&self, key: &str) -> (r: Option<PendingOp>)
        ensures
            match r {
                Some(op) => self.ops().contains_key(key@) && op == self.ops()[key@],
                None => !self.ops().contains_key(key@),
            },
    {
        pending_map_get(&self.pending, key)
    }

    /// Operations submitted since the last drain.
    pub fn pending_len(&self) -> (n: u64)
        ensures
            n == self.count(),
    {
        self.pending_count
    }

    /// Value bytes submitted since the last drain.
    pub fn pending_bytes(&self) -> (n: u64)
        ensures
            n == self.bytes(),
    {
        self.pending_bytes
    }

    /// A copy of every pending operation, each key once; the buffer is unchanged.
    pub fn snapshot(&self) -> (out: Vec<(String, PendingOp)>)
        ensures
            distinct_keys(out@),
            entries_map(out@) == self.ops(),
    {
        let keys = pending_map_keys(&self.pending);
        let ghost orig = self.ops();
        let mut out: Vec<(String, PendingOp)> = Vec::new();
        let mut i: usize = 0;
        while i < keys.len()
            invariant
                orig == self.ops(),
                i <= keys@.len(),
                forall|a: int, b: int| 0 <= a < b < keys@.len() ==> keys@[a]@ != keys@[b]@,
                forall|a: int| 0 <= a < keys@.len() ==> orig.contains_key(#[trigger] keys@[a]@),
                forall|k: Seq<char>| orig.contains_key(k) ==> exists|a: int| 0 <= a < keys@.len() && #[trigger] keys@[a]@ == k,
                out@.len() == i,
                forall|a: int| 0 <= a < i ==> (#[trigger] out@[a]).0@ == keys@[a]@ && out@[a].1 == orig[keys@[a]@],
            decreases keys@.len() - i,
        {
            let ghost k = keys@[i as int]@;
            assert(orig.contains_key(k));
            let got = pending_map_get(&self.pending, keys[i].as_str());
            match got {
                Some(op) => {
                    out.push((keys[i].clone(), op));
                },
                None => {
                    assert(false);
                },
            }
            i = i + 1;
        }
        assert(distinct_keys(out@));
        assert(entries_map(out@) =~= orig) by {
            assert forall|k: Seq<char>| #[trigger] entries_map(out@).contains_key(k) <==> orig.contains_key(k) by {
                if orig.contains_key(k) {
                    assert(exists|a: int| 0 <= a < keys@.len() && #[trigger] keys@[a]@ == k);
                    let a = choose|a: int| 0 <= a < keys@.len() && #[trigger] keys@[a]@ == k;
                    assert(out@[a].0@ == k);
                }
                if entries_map(out@).contains_key(k) {
                    let a = choose|a: int| 0 <= a < out@.len() && out@[a].0@ == k;
                    assert(out@[a].0@ == keys@[a]@);
                }
            }
            assert forall|k: Seq<char>| #[trigger] entries_map(out@).contains_key(k) implies entries_map(out@)[k] == orig[k] by {
                let a = choose|a: int| 0 <= a < out@.len() && out@[a].0@ == k;
                assert(out@[a].0@ == keys@[a]@);
            }
        }
        out
    }

    /// Takes every pending operation out of the buffer, which is left empty
    /// with both counters at zero.
    pub fn drain(&mut self) -> (out: Vec<(String, PendingOp)>)
        ensures
            distinct_keys(out@),
            entries_map(out@) == old(self).ops(),
            final(self).ops() == no_ops(),
            final(self).count() == 0,
            final(self).bytes() == 0,
    {
        let keys = pending_map_keys(&self.pending);
        let ghost orig = self.ops();
        let mut out: Vec<(String, PendingOp)> = Vec::new();
        let mut i: usize = 0;
        while i < keys.len()
            invariant
                i <= keys@.len(),
                forall|a: int, b: int| 0 <= a < b < keys@.len() ==> keys@[a]@ != keys@[b]@,
                forall|a: int| 0 <= a < keys@.len() ==> orig.contains_key(#[trigger] keys@[a]@),
                forall|k: Seq<char>| orig.contains_key(k) ==> exists|a: int| 0 <= a < keys@.len() && #[trigger] keys@[a]@ == k,
                out@.len() == i,
                forall|a: int| 0 <= a < i ==> (#[trigger] out@[a]).0@ == keys@[a]@ && out@[a].1 == orig[keys@[a]@],
                forall|k: Seq<char>| #[trigger] self.ops().contains_key(k) <==> (orig.contains_key(k) && forall|a: int| 0 <= a < i ==> keys@[a]@ != k),
                forall|k: Seq<char>| #[trigger] self.ops().contains_key(k) ==> self.ops()[k] == orig[k],
            decreases keys@.len() - i,
        {
            let ghost k = keys@[i as int]@;
            let ghost before = self.ops();
            assert(orig.contains_key(k));
            assert(forall|a: int| 0 <= a < i ==> keys@[a]@ != k);
            assert(before.contains_key(k));
            let removed = pending_map_remove(&mut self.pending, keys[i].as_str());
            match removed {
                Some(entry) => {
                    assert(entry.0@ == k && entry.1 == orig[k]);
                    out.push(entry);
                },
                None => {
                    assert(false);
                },
            }
            assert forall|k2: Seq<char>| #[trigger] self.ops().contains_key(k2) <==> (orig.contains_key(k2) && forall|a: int| 0 <= a < i + 1 ==> keys@[a]@ != k2) by {
                if self.ops().contains_key(k2) {
                    assert(before.contains_key(k2) && k2 != k);
                }
                if orig.contains_key(k2) && forall|a: int| 0 <= a < i + 1 ==> keys@[a]@ != k2 {
                    assert(keys@[i as int]@ != k2);
                    assert(before.contains_key(k2));
                }
            }
            i = i + 1;
        }
        assert(self.ops() =~= no_ops()) by {
            assert forall|k: Seq<char>| !self.ops().contains_key(k) by {
                if self.ops().contains_key(k) {
                    assert(orig.contains_key(k));
                    assert(exists|a: int| 0 <= a < keys@.len() && #[trigger] keys@[a]@ == k);
                    let a = choose|a: int| 0 <= a < keys@.len() && #[trigger] keys@[a]@ == k;
                    assert(keys@[a]@ == k);
                }
            }
        }
        self.pending_count = 0;
        self.pending_bytes = 0;
        assert(distinct_keys(out@));
        assert(entries_map(out@) =~= orig) by {
            assert forall|k: Seq<char>| #[trigger] entries_map(out@).contains_key(k) <==> orig.contains_key(k) by {
                if orig.contains_key(k) {
                    assert(exists|a: int| 0 <= a < keys@.len() && #[trigger] keys@[a]@ == k);
                    let a = choose|a: int| 0 <= a < keys@.len() && #[trigger] keys@[a]@ == k;
                    assert(out@[a].0@ == k);
                }
                if entries_map(out@).contains_key(k) {
                    let a = choose|a: int| 0 <= a < out@.len() && out@[a].0@ == k;
                    assert(out@[a].0@ == keys@[a]@);
                }
            }
            assert forall|k: Seq<char>| #[trigger] entries_map(out@).contains_key(k) implies entries_map(out@)[k] == orig[k] by {
                let a = choose|a: int| 0 <= a < out@.len() && out@[a].0@ == k;
                assert(out@[a].0@ == keys@[a]@);
            }
        }
        out
    }
}

/// The latest write to a key wins: a put or delete replaces whatever was
/// pending for that key, and a read of the key then sees exactly it.
pub proof fn law_latest_write_wins(ops: Map<Seq<char>, PendingOp>, key: Seq<char>, first: PendingOp, second: PendingOp)
    ensures
        ops.insert(key, first).insert(key, second) == ops.insert(key, second),
        ops.insert(key, second).contains_key(key),
        ops.insert(key, second)[key] == second,
{
    assert(ops.insert(key, first).insert(key, second) =~= ops.insert(key, second));
}

/// A write to one key leaves what is pending for every other key unchanged.
pub proof fn law_writes_are_isolated(ops: Map<Seq<char>, PendingOp>, key: Seq<char>, other: Seq<char>, op: PendingOp)
    requires
        key != other,
    ensures
        ops.insert(key, op).contains_key(other) == ops.contains_key(other),
        ops.contains_key(other) ==> ops.insert(key, op)[other] == ops[other],
{
}

} // verus!
