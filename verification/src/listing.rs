//! Listing by prefix: merging what is on disk with what is still pending in
//! the write buffer, ordered by key as `String`'s ordering does.

use crate::meta::ObjectMeta;
use crate::text::is_prefix;
use crate::write_buffer::PendingOp;
use vstd::hash_map::StringHashMap;
use vstd::prelude::*;
use vstd::utf8::encode_utf8;

verus! {

/// Strict lexicographic order on byte strings, the order `String` compares by.
pub open spec fn bytes_lt(a: Seq<u8>, b: Seq<u8>) -> bool
    decreases a.len(),
{
    if a.len() == 0 {
        b.len() > 0
    } else if b.len() == 0 {
        false
    } else if a[0] < b[0] {
        true
    } else if a[0] > b[0] {
        false
    } else {
        bytes_lt(a.drop_first(), b.drop_first())
    }
}

/// The bytes a metadata record is ordered by: the UTF-8 encoding of its key.
pub open spec fn sort_key(m: ObjectMeta) -> Seq<u8> {
    encode_utf8(m.key@)
}

/// Inserts `x` after every element whose key is not greater than its own.
pub open spec fn insert_sorted(s: Seq<ObjectMeta>, x: ObjectMeta) -> Seq<ObjectMeta>
    decreases s.len(),
{
    if s.len() == 0 {
        seq![x]
    } else if bytes_lt(sort_key(x), sort_key(s.last())) {
        insert_sorted(s.drop_last(), x).push(s.last())
    } else {
        s.push(x)
    }
}

/// The stable sort of `s` by key.
pub open spec fn sort_by_key(s: Seq<ObjectMeta>) -> Seq<ObjectMeta>
    decreases s.len(),
{
    if s.len() == 0 {
        seq![]
    } else {
        insert_sorted(sort_by_key(s.drop_last()), s.last())
    }
}

/// Byte-string order is transitive.
pub proof fn lemma_bytes_lt_transitive(a: Seq<u8>, b: Seq<u8>, c: Seq<u8>)
    requires
        bytes_lt(a, b),
        bytes_lt(b, c),
    ensures
        bytes_lt(a, c),
    decreases a.len(),
{
    if a.len() > 0 && b.len() > 0 && c.len() > 0 && a[0] == b[0] && b[0] == c[0] {
        lemma_bytes_lt_transitive(a.drop_first(), b.drop_first(), c.drop_first());
    }
}

/// Byte-string order is irreflexive.
pub proof fn lemma_bytes_lt_irreflexive(a: Seq<u8>)
    ensures
        !bytes_lt(a, a),
    decreases a.len(),
{
    if a.len() > 0 {
        lemma_bytes_lt_irreflexive(a.drop_first());
    }
}

/// Distinct byte strings are ordered one way or the other.
pub proof fn lemma_bytes_lt_total(a: Seq<u8>, b: Seq<u8>)
    requires
        a != b,
    ensures
        bytes_lt(a, b) || bytes_lt(b, a),
    decreases a.len(),
{
    if a.len() > 0 && b.len() > 0 && a[0] == b[0] {
        if a.drop_first() == b.drop_first() {
            assert(a =~= seq![a[0]] + a.drop_first());
            assert(b =~= seq![b[0]] + b.drop_first());
        }
        lemma_bytes_lt_total(a.drop_first(), b.drop_first());
    } else if a.len() == 0 && b.len() == 0 {
        assert(a =~= b);
    }
}

proof fn lemma_bytes_lt_step(a: Seq<u8>, b: Seq<u8>, i: int)
    requires
        0 <= i < a.len(),
        i < b.len(),
        a[i] == b[i],
    ensures
        bytes_lt(a.skip(i), b.skip(i)) == bytes_lt(a.skip(i + 1), b.skip(i + 1)),
{
    assert(a.skip(i).drop_first() =~= a.skip(i + 1));
    assert(b.skip(i).drop_first() =~= b.skip(i + 1));
}

/// Whether `a` orders strictly before `b`, as `String`'s `<` decides.
pub fn key_lt(a: &String, b: &String) -> (r: bool)
    ensures
        r == bytes_lt(encode_utf8(a@), encode_utf8(b@)),
{
    let x = a.as_str().as_bytes();
    let y = b.as_str().as_bytes();
    let ghost xs = x@;
    let ghost ys = y@;
    assert(xs.skip(0) =~= xs);
    assert(ys.skip(0) =~= ys);
    let mut i: usize = 0;
    while i < x.len() && i < y.len()
        invariant
            xs == x@,
            ys == y@,
            xs == encode_utf8(a@),
            ys == encode_utf8(b@),
            i <= xs.len(),
            i <= ys.len(),
            bytes_lt(xs, ys) == bytes_lt(xs.skip(i as int), ys.skip(i as int)),
        decreases xs.len() - i,
    {
        let p = x[i];
        let q = y[i];
        assert(xs.skip(i as int)[0] == p && ys.skip(i as int)[0] == q);
        if p < q {
            return true;
        }
        if p > q {
            return false;
        }
        proof { lemma_bytes_lt_step(xs, ys, i as int); }
        i = i + 1;
    }
    assert(xs.skip(i as int).len() == xs.len() - i);
    i == x.len() && i < y.len()
}

/// Inserts `x` into `v` at the place `insert_sorted` gives it.
pub fn insert_in_order(v: &mut Vec<ObjectMeta>, x: ObjectMeta)
    ensures
        final(v)@ == insert_sorted(old(v)@, x),
{
    let ghost s = v@;
    let mut j: usize = v.len();
    assert(s.take(j as int) =~= s);
    assert(s.skip(j as int) =~= Seq::<ObjectMeta>::empty());
    assert(insert_sorted(s, x) =~= insert_sorted(s.take(j as int), x) + s.skip(j as int));
    while j > 0 && key_lt(&x.key, &v[j - 1].key)
        invariant
            v@ == s,
            j <= s.len(),
            insert_sorted(s, x) == insert_sorted(s.take(j as int), x) + s.skip(j as int),
        decreases j,
    {
        let ghost t = s.take(j as int);
        assert(t.drop_last() =~= s.take(j - 1));
        assert(t.last() == s[j - 1]);
        assert(s.skip(j - 1) =~= seq![s[j - 1]] + s.skip(j as int));
        assert(insert_sorted(t, x) == insert_sorted(s.take(j - 1), x).push(s[j - 1]));
        assert(insert_sorted(s.take(j - 1), x) + s.skip(j - 1) =~= insert_sorted(s.take(j - 1), x).push(s[j - 1]) + s.skip(j as int));
        j = j - 1;
    }
    proof {
        if j == 0 {
            assert(s.take(0) =~= Seq::<ObjectMeta>::empty());
        } else {
            assert(s.take(j as int).last() == s[j - 1]);
        }
    }
    v.insert(j, x);
    assert(v@ =~= s.take(j as int).push(x) + s.skip(j as int));
}


/// Some record on disk has key `k`.
pub open spec fn on_disk(disk: Seq<ObjectMeta>, k: Seq<char>) -> bool {
    exists|i: int| 0 <= i < disk.len() && (#[trigger] disk[i]).key@ == k
}

/// A pending put for key `k`, which starts with `prefix`.
pub open spec fn pending_put(ents: Seq<(String, PendingOp)>, prefix: Seq<char>, k: Seq<char>) -> bool {
    is_prefix(prefix, k) && exists|i: int| 0 <= i < ents.len() && (#[trigger] ents[i]).0@ == k && ents[i].1 is Put
}

/// A pending delete for key `k`, which starts with `prefix`.
pub open spec fn pending_delete(ents: Seq<(String, PendingOp)>, prefix: Seq<char>, k: Seq<char>) -> bool {
    is_prefix(prefix, k) && exists|i: int| 0 <= i < ents.len() && (#[trigger] ents[i]).0@ == k && ents[i].1 is Delete
}

/// A key shows in the listing when it starts with the prefix, is on disk or
/// has a pending put, and has no pending delete.
pub open spec fn visible(disk: Seq<ObjectMeta>, ents: Seq<(String, PendingOp)>, prefix: Seq<char>, k: Seq<char>) -> bool {
    ((is_prefix(prefix, k) && on_disk(disk, k)) || pending_put(ents, prefix, k)) && !pending_delete(ents, prefix, k)
}

/// Metadata of pending puts under the prefix whose key is not on disk, in
/// the order of the pending entries.
pub open spec fn added_metas(ents: Seq<(String, PendingOp)>, prefix: Seq<char>, disk: Seq<ObjectMeta>) -> Seq<ObjectMeta>
    decreases ents.len(),
{
    if ents.len() == 0 {
        seq![]
    } else {
        let rest = added_metas(ents.drop_last(), prefix, disk);
        let e = ents.last();
        match e.1 {
            PendingOp::Put { value, meta } => {
                if is_prefix(prefix, e.0@) && !on_disk(disk, e.0@) {
                    rest.push(meta)
                } else {
                    rest
                }
            },
            PendingOp::Delete => rest,
        }
    }
}

/// The records of `s` whose key is visible, in order.
pub open spec fn kept(s: Seq<ObjectMeta>, disk: Seq<ObjectMeta>, ents: Seq<(String, PendingOp)>, prefix: Seq<char>) -> Seq<ObjectMeta>
    decreases s.len(),
{
    if s.len() == 0 {
        seq![]
    } else {
        let rest = kept(s.drop_last(), disk, ents, prefix);
        if visible(disk, ents, prefix, s.last().key@) {
            rest.push(s.last())
        } else {
            rest
        }
    }
}

/// The listing: disk records, then pending puts that are new, restricted to
/// visible keys, stably sorted by key and cut to `limit`.
pub open spec fn listing(disk: Seq<ObjectMeta>, ents: Seq<(String, PendingOp)>, prefix: Seq<char>, limit: nat) -> Seq<ObjectMeta> {
    let sorted = sort_by_key(kept(disk + added_metas(ents, prefix, disk), disk, ents, prefix));
    if limit < sorted.len() {
        sorted.take(limit as int)
    } else {
        sorted
    }
}

/// Merges the records `disk` read for `prefix` with the pending entries
/// `ents` of the write buffer: pending deletes hide keys, pending puts of
/// keys not on disk are added, and the result is sorted by key and cut to
/// `limit` records.
pub fn merge_listing(disk: Vec<ObjectMeta>, ents: Vec<(String, PendingOp)>, prefix: &str, limit: usize) -> (r: Vec<ObjectMeta>)
    requires
        crate::write_buffer::distinct_keys(ents@),
    ensures
        r@ == listing(disk@, ents@, prefix@, limit as nat),
        r@.len() <= limit,
        sorted_by_key(r@),
        forall|i: int| 0 <= i < r@.len() ==> visible(disk@, ents@, prefix@, (#[trigger] r@[i]).key@),
        puts_keyed(ents@) ==> forall|k: Seq<char>| visible(disk@, ents@, prefix@, k)
            && !(exists|i: int| 0 <= i < r@.len() && (#[trigger] r@[i]).key@ == k) ==> {
                &&& r@.len() == limit
                &&& forall|i: int| 0 <= i < r@.len() ==> !bytes_lt(encode_utf8(k), sort_key(#[trigger] r@[i]))
            },
{
    let ghost d0 = disk@;
    let ghost e0 = ents@;
    proof {
        let cands = d0 + added_metas(e0, prefix@, d0);
        let kp = kept(cands, d0, e0, prefix@);
        lemma_capped_sort_smallest(kp, limit as nat);
        lemma_kept_members(cands, d0, e0, prefix@);
        assert forall|i: int| 0 <= i < listing(d0, e0, prefix@, limit as nat).len() implies
            visible(d0, e0, prefix@, (#[trigger] listing(d0, e0, prefix@, limit as nat)[i]).key@) by {
            assert(kp.contains(listing(d0, e0, prefix@, limit as nat)[i]));
        }
    }
    let mut disk = disk;
    let mut ents = ents;
    let mut seen: StringHashMap<bool> = StringHashMap::new();
    let mut i: usize = 0;
    while i < disk.len()
        invariant
            disk@ == d0,
            i <= d0.len(),
            forall|k: Seq<char>| #[trigger] seen@.contains_key(k) <==> (is_prefix(prefix@, k) && exists|j: int| 0 <= j < i && d0[j].key@ == k),
        decreases d0.len() - i,
    {
        let k = disk[i].key.clone();
        if crate::text::starts_with(k.as_str(), prefix) {
            seen.insert(k, true);
        }
        assert forall|k2: Seq<char>| #[trigger] seen@.contains_key(k2) <==> (is_prefix(prefix@, k2) && exists|j: int| 0 <= j < i + 1 && d0[j].key@ == k2) by {
            if k2 == d0[i as int].key@ {
                assert(d0[i as int].key@ == k2);
            }
        }
        i = i + 1;
    }
    assert forall|k: Seq<char>| #[trigger] seen@.contains_key(k) <==> (is_prefix(prefix@, k) && on_disk(d0, k)) by {
        if on_disk(d0, k) {
            let j = choose|j: int| 0 <= j < d0.len() && (#[trigger] d0[j]).key@ == k;
            assert(d0[j].key@ == k);
        }
    }
    let mut added: Vec<ObjectMeta> = Vec::new();
    let mut n: usize = 0;
    let total = ents.len();
    while n < total
        invariant
            total == e0.len(),
            n <= total,
            ents@ == e0.skip(n as int),
            crate::write_buffer::distinct_keys(e0),
            added@ == added_metas(e0.take(n as int), prefix@, d0),
            forall|k: Seq<char>| #[trigger] seen@.contains_key(k) <==> (((is_prefix(prefix@, k) && on_disk(d0, k)) || pending_put(e0.take(n as int), prefix@, k)) && !pending_delete(e0.take(n as int), prefix@, k)),
        decreases total - n,
    {
        let ghost before = seen@;
        let ghost t = e0.take(n as int);
        let ghost t1 = e0.take(n + 1);
        assert(t1.drop_last() =~= t);
        assert(e0.skip(n as int)[0] == e0[n as int]);
        let (k, op) = ents.remove(0);
        assert(ents@ =~= e0.skip(n + 1));
        let ghost kv = k@;
        assert(t1.last() == e0[n as int]);
        assert forall|j: int| 0 <= j < t.len() implies (#[trigger] t[j]).0@ != kv by {
            assert(t[j] == e0[j]);
        }
        let has_prefix = crate::text::starts_with(k.as_str(), prefix);
        match op {
            PendingOp::Put { value, meta } => {
                if has_prefix && !seen.contains_key(k.as_str()) {
                    seen.insert(k, true);
                    added.push(meta);
                }
            },
            PendingOp::Delete => {
                if has_prefix {
                    seen.remove(k.as_str());
                }
            },
        }
        assert forall|k2: Seq<char>| #[trigger] seen@.contains_key(k2) <==> (((is_prefix(prefix@, k2) && on_disk(d0, k2)) || pending_put(t1, prefix@, k2)) && !pending_delete(t1, prefix@, k2)) by {
            if k2 != kv {
                assert(pending_put(t1, prefix@, k2) == pending_put(t, prefix@, k2)) by {
                    if pending_put(t1, prefix@, k2) {
                        let j = choose|j: int| 0 <= j < t1.len() && (#[trigger] t1[j]).0@ == k2 && t1[j].1 is Put;
                        assert(j < t.len() && t[j] == t1[j]);
                    }
                    if pending_put(t, prefix@, k2) {
                        let j = choose|j: int| 0 <= j < t.len() && (#[trigger] t[j]).0@ == k2 && t[j].1 is Put;
                        assert(t1[j] == t[j]);
                    }
                }
                assert(pending_delete(t1, prefix@, k2) == pending_delete(t, prefix@, k2)) by {
                    if pending_delete(t1, prefix@, k2) {
                        let j = choose|j: int| 0 <= j < t1.len() && (#[trigger] t1[j]).0@ == k2 && t1[j].1 is Delete;
                        assert(j < t.len() && t[j] == t1[j]);
                    }
                    if pending_delete(t, prefix@, k2) {
                        let j = choose|j: int| 0 <= j < t.len() && (#[trigger] t[j]).0@ == k2 && t[j].1 is Delete;
                        assert(t1[j] == t[j]);
                    }
                }
            } else {
                assert(!pending_put(t, prefix@, kv));
                assert(!pending_delete(t, prefix@, kv));
                assert(t1[n as int] == e0[n as int]);
                if is_prefix(prefix@, kv) {
                    if e0[n as int].1 is Put {
                        assert(pending_put(t1, prefix@, kv));
                        assert(!pending_delete(t1, prefix@, kv)) by {
                            if pending_delete(t1, prefix@, kv) {
                                let j = choose|j: int| 0 <= j < t1.len() && (#[trigger] t1[j]).0@ == kv && t1[j].1 is Delete;
                                if j < n {
                                    assert(t[j] == t1[j]);
                                }
                            }
                        }
                    } else {
                        assert(pending_delete(t1, prefix@, kv));
                    }
                } else {
                    assert(!pending_put(t1, prefix@, kv));
                    assert(!pending_delete(t1, prefix@, kv));
                }
            }
        }
        n = n + 1;
    }
    assert(e0.take(total as int) =~= e0);
    let ghost adds = added@;
    let ghost cands = d0 + adds;
    disk.append(&mut added);
    assert(disk@ =~= cands);
    let mut result: Vec<ObjectMeta> = Vec::new();
    let mut m: usize = 0;
    let count = disk.len();
    assert(cands.take(0) =~= Seq::<ObjectMeta>::empty());
    while m < count
        invariant
            count == cands.len(),
            m <= count,
            disk@ == cands.skip(m as int),
            forall|k: Seq<char>| #[trigger] seen@.contains_key(k) <==> visible(d0, e0, prefix@, k),
            result@ == sort_by_key(kept(cands.take(m as int), d0, e0, prefix@)),
        decreases count - m,
    {
        let ghost t = cands.take(m as int);
        let ghost t1 = cands.take(m + 1);
        assert(t1.drop_last() =~= t);
        assert(cands.skip(m as int)[0] == cands[m as int]);
        let item = disk.remove(0);
        assert(disk@ =~= cands.skip(m + 1));
        assert(t1.last() == item);
        if seen.contains_key(item.key.as_str()) {
            let ghost kt = kept(t, d0, e0, prefix@);
            assert(kept(t1, d0, e0, prefix@) == kt.push(item));
            assert(kt.push(item).drop_last() =~= kt);
            insert_in_order(&mut result, item);
        }
        m = m + 1;
    }
    assert(cands.take(count as int) =~= cands);
    result.truncate(limit);
    proof {
        let lst = listing(d0, e0, prefix@, limit as nat);
        assert(result@ =~= lst);
        if puts_keyed(e0) {
            law_listing_gives_smallest_visible(d0, e0, prefix@, limit as nat);
            assert forall|k: Seq<char>| visible(d0, e0, prefix@, k)
                && !(exists|i: int| 0 <= i < result@.len() && (#[trigger] result@[i]).key@ == k) implies {
                    &&& result@.len() == limit
                    &&& forall|i: int| 0 <= i < result@.len() ==> !bytes_lt(encode_utf8(k), sort_key(#[trigger] result@[i]))
                } by {
                if exists|i: int| 0 <= i < lst.len() && (#[trigger] lst[i]).key@ == k {
                    let i = choose|i: int| 0 <= i < lst.len() && (#[trigger] lst[i]).key@ == k;
                    assert(result@[i].key@ == k);
                }
            }
        }
    }
    result
}

/// The records a listing has kept so far, and the keys it shows.
pub type ListState = (Seq<ObjectMeta>, Set<Seq<char>>);

/// The listing state after the disk records `recs`: each record whose key
/// is not shown yet is kept and its key shown.
pub open spec fn admit_records(st: ListState, recs: Seq<ObjectMeta>) -> ListState
    decreases recs.len(),
{
    if recs.len() == 0 {
        st
    } else {
        let prev = admit_records(st, recs.drop_last());
        let m = recs.last();
        if prev.1.contains(m.key@) {
            prev
        } else {
            (prev.0.push(m), prev.1.insert(m.key@))
        }
    }
}

/// The listing state after the disk records `recs` read for `prefix`: each
/// record under the prefix whose key is not shown yet is kept and its key
/// shown; records outside the prefix are skipped.
pub open spec fn admit_prefixed(st: ListState, recs: Seq<ObjectMeta>, prefix: Seq<char>) -> ListState
    decreases recs.len(),
{
    if recs.len() == 0 {
        st
    } else {
        let prev = admit_prefixed(st, recs.drop_last(), prefix);
        let m = recs.last();
        if !is_prefix(prefix, m.key@) || prev.1.contains(m.key@) {
            prev
        } else {
            (prev.0.push(m), prev.1.insert(m.key@))
        }
    }
}

/// Every record of `s` has a key starting with `prefix`.
pub open spec fn all_under(s: Seq<ObjectMeta>, prefix: Seq<char>) -> bool {
    forall|i: int| 0 <= i < s.len() ==> is_prefix(prefix, (#[trigger] s[i]).key@)
}

/// Inserting a record under the prefix into records under it keeps them so.
pub proof fn lemma_insert_sorted_under(s: Seq<ObjectMeta>, x: ObjectMeta, prefix: Seq<char>)
    requires
        all_under(s, prefix),
        is_prefix(prefix, x.key@),
    ensures
        all_under(insert_sorted(s, x), prefix),
    decreases s.len(),
{
    if s.len() > 0 && bytes_lt(sort_key(x), sort_key(s.last())) {
        lemma_insert_sorted_under(s.drop_last(), x, prefix);
        let r = insert_sorted(s.drop_last(), x);
        assert forall|i: int| 0 <= i < r.push(s.last()).len() implies is_prefix(prefix, (#[trigger] r.push(s.last())[i]).key@) by {
            if i < r.len() {
                assert(r.push(s.last())[i] == r[i]);
            }
        }
    } else if s.len() > 0 {
        assert forall|i: int| 0 <= i < s.push(x).len() implies is_prefix(prefix, (#[trigger] s.push(x)[i]).key@) by {
            if i < s.len() {
                assert(s.push(x)[i] == s[i]);
            }
        }
    }
}

/// Sorting records under the prefix keeps them so.
pub proof fn lemma_sort_under(s: Seq<ObjectMeta>, prefix: Seq<char>)
    requires
        all_under(s, prefix),
    ensures
        all_under(sort_by_key(s), prefix),
    decreases s.len(),
{
    if s.len() > 0 {
        assert forall|i: int| 0 <= i < s.drop_last().len() implies is_prefix(prefix, (#[trigger] s.drop_last()[i]).key@) by {
            assert(s.drop_last()[i] == s[i]);
        }
        lemma_sort_under(s.drop_last(), prefix);
        assert(is_prefix(prefix, s[s.len() - 1].key@));
        lemma_insert_sorted_under(sort_by_key(s.drop_last()), s.last(), prefix);
    }
}

/// Cutting records under the prefix keeps them so.
pub proof fn lemma_capped_under(s: Seq<ObjectMeta>, limit: nat, prefix: Seq<char>)
    requires
        all_under(s, prefix),
    ensures
        all_under(capped(s, limit), prefix),
{
    if limit < s.len() {
        assert forall|i: int| 0 <= i < s.take(limit as int).len() implies is_prefix(prefix, (#[trigger] s.take(limit as int)[i]).key@) by {
            assert(s.take(limit as int)[i] == s[i]);
        }
    }
}

/// The records kept for a listing all have visible keys, which start with
/// the prefix.
proof fn lemma_kept_under(s: Seq<ObjectMeta>, disk: Seq<ObjectMeta>, ents: Seq<(String, PendingOp)>, prefix: Seq<char>)
    ensures
        all_under(kept(s, disk, ents, prefix), prefix),
    decreases s.len(),
{
    if s.len() > 0 {
        lemma_kept_under(s.drop_last(), disk, ents, prefix);
        let r = kept(s.drop_last(), disk, ents, prefix);
        if visible(disk, ents, prefix, s.last().key@) {
            assert forall|i: int| 0 <= i < r.push(s.last()).len() implies is_prefix(prefix, (#[trigger] r.push(s.last())[i]).key@) by {
                if i < r.len() {
                    assert(r.push(s.last())[i] == r[i]);
                }
            }
        }
    }
}

/// Every record a listing of `prefix` shows has a key starting with
/// `prefix`.
pub proof fn lemma_listing_under(disk: Seq<ObjectMeta>, ents: Seq<(String, PendingOp)>, prefix: Seq<char>, limit: nat)
    ensures
        all_under(listing(disk, ents, prefix, limit), prefix),
{
    let k = kept(disk + added_metas(ents, prefix, disk), disk, ents, prefix);
    lemma_kept_under(disk + added_metas(ents, prefix, disk), disk, ents, prefix);
    lemma_sort_under(k, prefix);
    lemma_capped_under(sort_by_key(k), limit, prefix);
}

/// The records shown from `recs` all have keys in `keys`.
pub proof fn lemma_shown_in(recs: Seq<ObjectMeta>, keys: Set<Seq<char>>)
    ensures
        forall|i: int| 0 <= i < shown(recs, keys).len() ==> keys.contains((#[trigger] shown(recs, keys)[i]).key@),
    decreases recs.len(),
{
    if recs.len() > 0 {
        lemma_shown_in(recs.drop_last(), keys);
        let r = shown(recs.drop_last(), keys);
        if keys.contains(recs.last().key@) {
            assert forall|i: int| 0 <= i < r.push(recs.last()).len() implies keys.contains((#[trigger] r.push(recs.last())[i]).key@) by {
                if i < r.len() {
                    assert(r.push(recs.last())[i] == r[i]);
                }
            }
        }
    }
}

/// Records in non-decreasing key order.
pub open spec fn sorted_by_key(s: Seq<ObjectMeta>) -> bool {
    forall|i: int, j: int| 0 <= i < j < s.len() ==> !bytes_lt(sort_key(#[trigger] s[j]), sort_key(#[trigger] s[i]))
}

/// Not-after is transitive on byte strings.
proof fn lemma_le_transitive(a: Seq<u8>, b: Seq<u8>, c: Seq<u8>)
    requires
        !bytes_lt(b, a),
        !bytes_lt(c, b),
    ensures
        !bytes_lt(c, a),
{
    if bytes_lt(c, a) {
        if a == b {
        } else {
            lemma_bytes_lt_total(a, b);
            lemma_bytes_lt_transitive(c, a, b);
        }
    }
}

/// Inserting keeps every record and adds `x`.
proof fn lemma_insert_sorted_members(s: Seq<ObjectMeta>, x: ObjectMeta)
    ensures
        insert_sorted(s, x).len() == s.len() + 1,
        forall|y: ObjectMeta| #[trigger] insert_sorted(s, x).contains(y) <==> (y == x || s.contains(y)),
    decreases s.len(),
{
    if s.len() == 0 {
        assert(insert_sorted(s, x) =~= seq![x]);
        assert forall|y: ObjectMeta| #[trigger] insert_sorted(s, x).contains(y) <==> (y == x || s.contains(y)) by {
            if insert_sorted(s, x).contains(y) {
                assert(insert_sorted(s, x)[0] == x);
            }
            if y == x {
                assert(insert_sorted(s, x)[0] == x);
            }
        }
    } else if bytes_lt(sort_key(x), sort_key(s.last())) {
        lemma_insert_sorted_members(s.drop_last(), x);
        let r = insert_sorted(s.drop_last(), x);
        assert forall|y: ObjectMeta| #[trigger] r.push(s.last()).contains(y) <==> (y == x || s.contains(y)) by {
            if r.push(s.last()).contains(y) {
                let i = choose|i: int| 0 <= i < r.push(s.last()).len() && r.push(s.last())[i] == y;
                if i < r.len() {
                    assert(r.contains(r[i]));
                    if s.drop_last().contains(y) {
                        let j = choose|j: int| 0 <= j < s.drop_last().len() && s.drop_last()[j] == y;
                        assert(s[j] == y);
                    }
                } else {
                    assert(s[s.len() - 1] == y);
                }
            }
            if y == x {
                assert(r.contains(x));
                let i = choose|i: int| 0 <= i < r.len() && r[i] == x;
                assert(r.push(s.last())[i] == x);
            } else if s.contains(y) {
                let j = choose|j: int| 0 <= j < s.len() && s[j] == y;
                if j < s.len() - 1 {
                    assert(s.drop_last()[j] == y);
                    assert(s.drop_last().contains(y));
                    assert(r.contains(y));
                    let i = choose|i: int| 0 <= i < r.len() && r[i] == y;
                    assert(r.push(s.last())[i] == y);
                } else {
                    assert(r.push(s.last())[r.len() as int] == y);
                }
            }
        }
    } else {
        assert forall|y: ObjectMeta| #[trigger] s.push(x).contains(y) <==> (y == x || s.contains(y)) by {
            if s.push(x).contains(y) {
                let i = choose|i: int| 0 <= i < s.push(x).len() && s.push(x)[i] == y;
                if i < s.len() {
                    assert(s[i] == y);
                }
            }
            if y == x {
                assert(s.push(x)[s.len() as int] == x);
            } else if s.contains(y) {
                let j = choose|j: int| 0 <= j < s.len() && s[j] == y;
                assert(s.push(x)[j] == y);
            }
        }
    }
}

/// Inserting into sorted records keeps them sorted.
proof fn lemma_insert_sorted_sorted(s: Seq<ObjectMeta>, x: ObjectMeta)
    requires
        sorted_by_key(s),
    ensures
        sorted_by_key(insert_sorted(s, x)),
    decreases s.len(),
{
    lemma_insert_sorted_members(s, x);
    if s.len() == 0 {
    } else if bytes_lt(sort_key(x), sort_key(s.last())) {
        let s0 = s.drop_last();
        assert(sorted_by_key(s0)) by {
            assert forall|i: int, j: int| 0 <= i < j < s0.len() implies !bytes_lt(sort_key(#[trigger] s0[j]), sort_key(#[trigger] s0[i])) by {
                assert(s0[i] == s[i] && s0[j] == s[j]);
            }
        }
        lemma_insert_sorted_sorted(s0, x);
        lemma_insert_sorted_members(s0, x);
        let r = insert_sorted(s0, x);
        let last = s.last();
        assert forall|i: int, j: int| 0 <= i < j < r.push(last).len() implies
            !bytes_lt(sort_key(#[trigger] r.push(last)[j]), sort_key(#[trigger] r.push(last)[i])) by {
            if j < r.len() {
                assert(r.push(last)[i] == r[i] && r.push(last)[j] == r[j]);
            } else {
                assert(r.push(last)[i] == r[i]);
                assert(r.contains(r[i]));
                if r[i] == x {
                    lemma_bytes_lt_irreflexive(sort_key(x));
                    if bytes_lt(sort_key(last), sort_key(x)) {
                        lemma_bytes_lt_transitive(sort_key(x), sort_key(last), sort_key(x));
                    }
                } else {
                    assert(s0.contains(r[i]));
                    let k = choose|k: int| 0 <= k < s0.len() && s0[k] == r[i];
                    assert(s[k] == r[i]);
                    assert(s[s.len() - 1] == last);
                }
            }
        }
    } else {
        let last = s.last();
        assert forall|i: int, j: int| 0 <= i < j < s.push(x).len() implies
            !bytes_lt(sort_key(#[trigger] s.push(x)[j]), sort_key(#[trigger] s.push(x)[i])) by {
            if j < s.len() {
                assert(s.push(x)[i] == s[i] && s.push(x)[j] == s[j]);
            } else {
                assert(s.push(x)[i] == s[i]);
                if i < s.len() - 1 {
                    assert(s[s.len() - 1] == last);
                    lemma_le_transitive(sort_key(s[i]), sort_key(last), sort_key(x));
                }
            }
        }
    }
}

/// Sorting keeps exactly the records, and sorts them.
pub proof fn lemma_sort_by_key(s: Seq<ObjectMeta>)
    ensures
        sort_by_key(s).len() == s.len(),
        forall|y: ObjectMeta| #[trigger] sort_by_key(s).contains(y) <==> s.contains(y),
        sorted_by_key(sort_by_key(s)),
    decreases s.len(),
{
    if s.len() > 0 {
        lemma_sort_by_key(s.drop_last());
        lemma_insert_sorted_members(sort_by_key(s.drop_last()), s.last());
        lemma_insert_sorted_sorted(sort_by_key(s.drop_last()), s.last());
        assert forall|y: ObjectMeta| #[trigger] sort_by_key(s).contains(y) <==> s.contains(y) by {
            if s.contains(y) && y != s.last() {
                let j = choose|j: int| 0 <= j < s.len() && s[j] == y;
                assert(s.drop_last()[j] == y);
                assert(s.drop_last().contains(y));
            }
            if s.drop_last().contains(y) {
                let j = choose|j: int| 0 <= j < s.drop_last().len() && s.drop_last()[j] == y;
                assert(s[j] == y);
            }
            if y == s.last() {
                assert(s[s.len() - 1] == y);
            }
        }
    } else {
        assert(sort_by_key(s) =~= Seq::<ObjectMeta>::empty());
    }
}

/// Sorting and then cutting to `limit` keeps the records with the smallest
/// keys: the result is sorted, holds at most `limit` records of `s`, and a
/// record of `s` it leaves out orders after every record it holds.
pub proof fn lemma_capped_sort_smallest(s: Seq<ObjectMeta>, limit: nat)
    ensures
        capped(sort_by_key(s), limit).len() <= limit,
        sorted_by_key(capped(sort_by_key(s), limit)),
        forall|i: int| 0 <= i < capped(sort_by_key(s), limit).len() ==> s.contains(#[trigger] capped(sort_by_key(s), limit)[i]),
        forall|y: ObjectMeta| s.contains(y) && !(#[trigger] capped(sort_by_key(s), limit).contains(y)) ==> {
            &&& capped(sort_by_key(s), limit).len() == limit
            &&& forall|i: int| 0 <= i < capped(sort_by_key(s), limit).len() ==>
                !bytes_lt(sort_key(y), sort_key(#[trigger] capped(sort_by_key(s), limit)[i]))
        },
{
    lemma_sort_by_key(s);
    let t = sort_by_key(s);
    let r = capped(t, limit);
    if limit < t.len() {
        assert forall|i: int, j: int| 0 <= i < j < r.len() implies !bytes_lt(sort_key(#[trigger] r[j]), sort_key(#[trigger] r[i])) by {
            assert(r[i] == t[i] && r[j] == t[j]);
        }
    }
    assert forall|i: int| 0 <= i < r.len() implies s.contains(#[trigger] r[i]) by {
        assert(r[i] == t[i]);
        assert(t.contains(t[i]));
    }
    assert forall|y: ObjectMeta| s.contains(y) && !(#[trigger] r.contains(y)) implies {
        &&& r.len() == limit
        &&& forall|i: int| 0 <= i < r.len() ==> !bytes_lt(sort_key(y), sort_key(#[trigger] r[i]))
    } by {
        assert(t.contains(y));
        let j = choose|j: int| 0 <= j < t.len() && t[j] == y;
        if limit >= t.len() {
            assert(r[j] == y);
        } else {
            if j < limit {
                assert(r[j] == y);
            }
            assert forall|i: int| 0 <= i < r.len() implies !bytes_lt(sort_key(y), sort_key(#[trigger] r[i])) by {
                assert(r[i] == t[i]);
            }
        }
    }
}

/// The keys of pending puts carry metadata for the same key.
pub open spec fn puts_keyed(ents: Seq<(String, PendingOp)>) -> bool {
    forall|i: int| 0 <= i < ents.len() ==> ((#[trigger] ents[i]).1 matches PendingOp::Put { meta, .. } ==> meta.key@ == ents[i].0@)
}

/// A pending put under the prefix whose key is not on disk contributes its
/// metadata to the listing's candidates.
proof fn lemma_added_has(ents: Seq<(String, PendingOp)>, prefix: Seq<char>, disk: Seq<ObjectMeta>, k: Seq<char>)
    requires
        puts_keyed(ents),
        pending_put(ents, prefix, k),
        !on_disk(disk, k),
    ensures
        exists|i: int| 0 <= i < added_metas(ents, prefix, disk).len() && (#[trigger] added_metas(ents, prefix, disk)[i]).key@ == k,
    decreases ents.len(),
{
    let e = ents.last();
    let rest = added_metas(ents.drop_last(), prefix, disk);
    assert(is_prefix(prefix, k));
    if e.0@ == k && e.1 is Put {
        assert(ents[ents.len() - 1] == e);
        match e.1 {
            PendingOp::Put { value, meta } => {
                assert(meta.key@ == k);
                assert(added_metas(ents, prefix, disk) == rest.push(meta));
                let idx = rest.len() as int;
                assert(rest.push(meta)[idx] == meta);
                assert((added_metas(ents, prefix, disk)[idx]).key@ == k);
            },
            PendingOp::Delete => {},
        }
    } else {
        let j = choose|j: int| 0 <= j < ents.len() && (#[trigger] ents[j]).0@ == k && ents[j].1 is Put;
        assert(j < ents.len() - 1);
        assert(ents.drop_last()[j] == ents[j]);
        assert(pending_put(ents.drop_last(), prefix, k));
        assert(puts_keyed(ents.drop_last())) by {
            assert forall|i: int| 0 <= i < ents.drop_last().len() implies ((#[trigger] ents.drop_last()[i]).1 matches PendingOp::Put { meta, .. } ==> meta.key@ == ents.drop_last()[i].0@) by {
                assert(ents.drop_last()[i] == ents[i]);
            }
        }
        lemma_added_has(ents.drop_last(), prefix, disk, k);
        let i = choose|i: int| 0 <= i < rest.len() && (#[trigger] rest[i]).key@ == k;
        match e.1 {
            PendingOp::Put { value, meta } => {
                if is_prefix(prefix, e.0@) && !on_disk(disk, e.0@) {
                    assert(added_metas(ents, prefix, disk)[i] == rest[i]);
                } else {
                    assert(added_metas(ents, prefix, disk) == rest);
                }
            },
            PendingOp::Delete => {
                assert(added_metas(ents, prefix, disk) == rest);
            },
        }
        assert((added_metas(ents, prefix, disk)[i]).key@ == k);
    }
}

/// The records kept are exactly the candidates with visible keys.
proof fn lemma_kept_members(s: Seq<ObjectMeta>, disk: Seq<ObjectMeta>, ents: Seq<(String, PendingOp)>, prefix: Seq<char>)
    ensures
        forall|y: ObjectMeta| #[trigger] kept(s, disk, ents, prefix).contains(y) <==> (s.contains(y) && visible(disk, ents, prefix, y.key@)),
    decreases s.len(),
{
    if s.len() > 0 {
        lemma_kept_members(s.drop_last(), disk, ents, prefix);
        let r = kept(s.drop_last(), disk, ents, prefix);
        assert forall|y: ObjectMeta| #[trigger] kept(s, disk, ents, prefix).contains(y) <==> (s.contains(y) && visible(disk, ents, prefix, y.key@)) by {
            if s.contains(y) && y != s.last() {
                let j = choose|j: int| 0 <= j < s.len() && s[j] == y;
                assert(s.drop_last()[j] == y);
                assert(s.drop_last().contains(y));
            }
            if s.drop_last().contains(y) {
                let j = choose|j: int| 0 <= j < s.drop_last().len() && s.drop_last()[j] == y;
                assert(s[j] == y);
            }
            if y == s.last() {
                assert(s[s.len() - 1] == y);
            }
            if visible(disk, ents, prefix, s.last().key@) {
                let rp = r.push(s.last());
                if rp.contains(y) {
                    let i = choose|i: int| 0 <= i < rp.len() && rp[i] == y;
                    if i < r.len() {
                        assert(r[i] == y);
                        assert(r.contains(y));
                    }
                }
                if r.contains(y) {
                    let i = choose|i: int| 0 <= i < r.len() && r[i] == y;
                    assert(rp[i] == y);
                }
                if y == s.last() {
                    assert(rp[r.len() as int] == y);
                }
            }
        }
    }
}

/// A listing gives the smallest visible keys under the prefix: its records
/// are sorted by key and each has a visible key, there are at most `limit`
/// of them, and a visible key it leaves out orders after every key it
/// gives (so the listing is full).
pub proof fn law_listing_gives_smallest_visible(disk: Seq<ObjectMeta>, ents: Seq<(String, PendingOp)>, prefix: Seq<char>, limit: nat)
    requires
        puts_keyed(ents),
    ensures
        listing(disk, ents, prefix, limit).len() <= limit,
        sorted_by_key(listing(disk, ents, prefix, limit)),
        forall|i: int| 0 <= i < listing(disk, ents, prefix, limit).len() ==>
            visible(disk, ents, prefix, (#[trigger] listing(disk, ents, prefix, limit)[i]).key@),
        forall|k: Seq<char>| visible(disk, ents, prefix, k)
            && !(exists|i: int| 0 <= i < listing(disk, ents, prefix, limit).len() && (#[trigger] listing(disk, ents, prefix, limit)[i]).key@ == k) ==> {
                &&& listing(disk, ents, prefix, limit).len() == limit
                &&& forall|i: int| 0 <= i < listing(disk, ents, prefix, limit).len() ==>
                    !bytes_lt(encode_utf8(k), sort_key(#[trigger] listing(disk, ents, prefix, limit)[i]))
            },
{
    let cands = disk + added_metas(ents, prefix, disk);
    let kp = kept(cands, disk, ents, prefix);
    let r = listing(disk, ents, prefix, limit);
    assert(r == capped(sort_by_key(kp), limit));
    lemma_capped_sort_smallest(kp, limit);
    lemma_kept_members(cands, disk, ents, prefix);
    assert forall|i: int| 0 <= i < r.len() implies visible(disk, ents, prefix, (#[trigger] r[i]).key@) by {
        assert(kp.contains(r[i]));
    }
    assert forall|k: Seq<char>| visible(disk, ents, prefix, k)
        && !(exists|i: int| 0 <= i < r.len() && (#[trigger] r[i]).key@ == k) implies {
            &&& r.len() == limit
            &&& forall|i: int| 0 <= i < r.len() ==> !bytes_lt(encode_utf8(k), sort_key(#[trigger] r[i]))
        } by {
        let y: ObjectMeta = if is_prefix(prefix, k) && on_disk(disk, k) {
            let j = choose|j: int| 0 <= j < disk.len() && (#[trigger] disk[j]).key@ == k;
            assert(cands[j] == disk[j]);
            disk[j]
        } else {
            lemma_added_has(ents, prefix, disk, k);
            let a = added_metas(ents, prefix, disk);
            let i = choose|i: int| 0 <= i < a.len() && (#[trigger] a[i]).key@ == k;
            assert(cands[disk.len() + i] == a[i]);
            a[i]
        };
        assert(cands.contains(y));
        assert(kp.contains(y));
        if r.contains(y) {
            let i = choose|i: int| 0 <= i < r.len() && r[i] == y;
            assert(r[i].key@ == k);
        }
        assert(sort_key(y) == encode_utf8(k));
    }
}

/// The records of `recs` whose key is shown, in order.
pub open spec fn shown(recs: Seq<ObjectMeta>, keys: Set<Seq<char>>) -> Seq<ObjectMeta>
    decreases recs.len(),
{
    if recs.len() == 0 {
        Seq::empty()
    } else if keys.contains(recs.last().key@) {
        shown(recs.drop_last(), keys).push(recs.last())
    } else {
        shown(recs.drop_last(), keys)
    }
}

/// At most the first `limit` records.
pub open spec fn capped(s: Seq<ObjectMeta>, limit: nat) -> Seq<ObjectMeta> {
    if limit < s.len() {
        s.take(limit as int)
    } else {
        s
    }
}

/// The merged listing of several sources, in order: the first record of
/// each key, stably sorted by key, cut to `limit`.
pub open spec fn merged_listing(sources: Seq<Seq<ObjectMeta>>, limit: nat) -> Seq<ObjectMeta> {
    capped(sort_by_key(admit_records((Seq::empty(), Set::empty()), sources.flatten()).0), limit)
}

/// Every shown key has a kept record.
pub open spec fn keys_have_records(st: ListState) -> bool {
    forall|k: Seq<char>| #[trigger] st.1.contains(k) ==> exists|i: int| 0 <= i < st.0.len() && (#[trigger] st.0[i]).key@ == k
}

/// Admitting records shows every key among them, keeps a record for each
/// shown key, and keeps only records that were kept before or admitted.
proof fn lemma_admit_records_keys(st: ListState, recs: Seq<ObjectMeta>)
    requires
        keys_have_records(st),
    ensures
        keys_have_records(admit_records(st, recs)),
        forall|k: Seq<char>| #[trigger] admit_records(st, recs).1.contains(k)
            <==> (st.1.contains(k) || exists|j: int| 0 <= j < recs.len() && (#[trigger] recs[j]).key@ == k),
        forall|i: int| 0 <= i < admit_records(st, recs).0.len() ==>
            st.0.contains(#[trigger] admit_records(st, recs).0[i]) || recs.contains(admit_records(st, recs).0[i]),
    decreases recs.len(),
{
    if recs.len() > 0 {
        let r0 = recs.drop_last();
        lemma_admit_records_keys(st, r0);
        let prev = admit_records(st, r0);
        let m = recs.last();
        let res = admit_records(st, recs);
        assert forall|k: Seq<char>| #[trigger] res.1.contains(k)
            <==> (st.1.contains(k) || exists|j: int| 0 <= j < recs.len() && (#[trigger] recs[j]).key@ == k) by {
            if exists|j: int| 0 <= j < r0.len() && (#[trigger] r0[j]).key@ == k {
                let j = choose|j: int| 0 <= j < r0.len() && (#[trigger] r0[j]).key@ == k;
                assert(recs[j] == r0[j]);
            }
            if exists|j: int| 0 <= j < recs.len() && (#[trigger] recs[j]).key@ == k {
                let j = choose|j: int| 0 <= j < recs.len() && (#[trigger] recs[j]).key@ == k;
                if j < r0.len() {
                    assert(r0[j] == recs[j]);
                } else {
                    assert(recs[j] == m);
                }
            }
        }
        if !prev.1.contains(m.key@) {
            let p0 = prev.0.push(m);
            assert forall|k: Seq<char>| #[trigger] res.1.contains(k) implies exists|i: int| 0 <= i < res.0.len() && (#[trigger] res.0[i]).key@ == k by {
                if k == m.key@ {
                    assert(p0[prev.0.len() as int] == m);
                } else {
                    let i = choose|i: int| 0 <= i < prev.0.len() && (#[trigger] prev.0[i]).key@ == k;
                    assert(p0[i] == prev.0[i]);
                }
            }
        }
        assert forall|i: int| 0 <= i < res.0.len() implies st.0.contains(#[trigger] res.0[i]) || recs.contains(res.0[i]) by {
            if i < prev.0.len() {
                assert(res.0[i] == prev.0[i]);
                if r0.contains(prev.0[i]) {
                    let j = choose|j: int| 0 <= j < r0.len() && r0[j] == prev.0[i];
                    assert(recs[j] == r0[j]);
                }
            } else {
                assert(res.0[i] == m);
                assert(recs[recs.len() - 1] == m);
            }
        }
    }
}

/// Merging listings gives the smallest keys among all sources: the result
/// is sorted by key, has at most `limit` records, each taken from a source,
/// and a key some source lists that the result leaves out orders after
/// every key it gives (so the result is full).
pub proof fn law_merged_listing_gives_smallest(sources: Seq<Seq<ObjectMeta>>, limit: nat)
    ensures
        merged_listing(sources, limit).len() <= limit,
        sorted_by_key(merged_listing(sources, limit)),
        forall|i: int| 0 <= i < merged_listing(sources, limit).len() ==> sources.flatten().contains(#[trigger] merged_listing(sources, limit)[i]),
        forall|y: ObjectMeta| #[trigger] sources.flatten().contains(y)
            && !(exists|i: int| 0 <= i < merged_listing(sources, limit).len() && (#[trigger] merged_listing(sources, limit)[i]).key@ == y.key@) ==> {
                &&& merged_listing(sources, limit).len() == limit
                &&& forall|i: int| 0 <= i < merged_listing(sources, limit).len() ==>
                    !bytes_lt(sort_key(y), sort_key(#[trigger] merged_listing(sources, limit)[i]))
            },
{
    let recs = sources.flatten();
    let st0: ListState = (Seq::empty(), Set::empty());
    let st = admit_records(st0, recs);
    lemma_admit_records_keys(st0, recs);
    lemma_capped_sort_smallest(st.0, limit);
    let r = merged_listing(sources, limit);
    assert forall|i: int| 0 <= i < r.len() implies recs.contains(#[trigger] r[i]) by {
        assert(st.0.contains(r[i]));
        let j = choose|j: int| 0 <= j < st.0.len() && st.0[j] == r[i];
        assert(!st0.0.contains(st.0[j]));
    }
    assert forall|y: ObjectMeta| #[trigger] recs.contains(y)
        && !(exists|i: int| 0 <= i < r.len() && (#[trigger] r[i]).key@ == y.key@) implies {
            &&& r.len() == limit
            &&& forall|i: int| 0 <= i < r.len() ==> !bytes_lt(sort_key(y), sort_key(#[trigger] r[i]))
        } by {
        let j = choose|j: int| 0 <= j < recs.len() && recs[j] == y;
        assert(recs[j].key@ == y.key@);
        assert(st.1.contains(y.key@));
        let i = choose|i: int| 0 <= i < st.0.len() && (#[trigger] st.0[i]).key@ == y.key@;
        let z = st.0[i];
        assert(st.0.contains(z));
        if r.contains(z) {
            let t = choose|t: int| 0 <= t < r.len() && r[t] == z;
            assert(r[t].key@ == y.key@);
        }
        assert(sort_key(z) == sort_key(y));
    }
}

/// The records of each source.
pub open spec fn source_views(v: Seq<Vec<ObjectMeta>>) -> Seq<Seq<ObjectMeta>> {
    v.map_values(|x: Vec<ObjectMeta>| x@)
}

/// Merges the listings `sources` returned (one per worker or shard, in
/// order): a key listed by several keeps its first record; the result is
/// sorted by key and cut to `limit`.
pub fn merge_listings(sources: Vec<Vec<ObjectMeta>>, limit: usize) -> (r: Vec<ObjectMeta>)
    ensures
        r@ == merged_listing(sources@.map_values(|v: Vec<ObjectMeta>| v@), limit as nat),
        r@.len() <= limit,
        sorted_by_key(r@),
        forall|y: ObjectMeta| #[trigger] source_views(sources@).flatten().contains(y)
            && !(exists|i: int| 0 <= i < r@.len() && (#[trigger] r@[i]).key@ == y.key@) ==> {
                &&& r@.len() == limit
                &&& forall|i: int| 0 <= i < r@.len() ==> !bytes_lt(sort_key(y), sort_key(#[trigger] r@[i]))
            },
{
    let ghost src = sources@.map_values(|v: Vec<ObjectMeta>| v@);
    proof {
        assert(source_views(sources@) == src);
        law_merged_listing_gives_smallest(src, limit as nat);
    }
    let mut sources = sources;
    assert(forall|k: int| 0 <= k < sources@.len() ==> (#[trigger] sources@[k])@ == src[0 + k]);
    let mut seen: StringHashMap<bool> = StringHashMap::new();
    let mut all: Vec<ObjectMeta> = Vec::new();
    let n = sources.len();
    let mut s: usize = 0;
    let ghost empty_state: ListState = (Seq::empty(), Set::empty());
    assert(src.take(0).flatten() =~= Seq::<ObjectMeta>::empty());
    assert(seen@.dom() =~= Set::<Seq<char>>::empty());
    assert(all@ =~= Seq::<ObjectMeta>::empty());
    while s < n
        invariant
            n == src.len(),
            s <= n,
            sources@.len() == n - s,
            forall|k: int| 0 <= k < n - s ==> (#[trigger] sources@[k])@ == src[s + k],
            (all@, seen@.dom()) == admit_records(empty_state, src.take(s as int).flatten()),
        decreases n - s,
    {
        assert(sources@[0]@ == src[s as int]);
        let ghost before = sources@;
        let mut recs = sources.remove(0);
        assert forall|k: int| 0 <= k < n - (s + 1) implies (#[trigger] sources@[k])@ == src[s + 1 + k] by {
            assert(sources@[k] == before[k + 1]);
        }
        let ghost rv = recs@;
        let ghost done = src.take(s as int).flatten();
        assert(src.take(s + 1).flatten() =~= done + rv) by {
            assert(src.take(s + 1) =~= src.take(s as int).push(rv));
            src.take(s as int).lemma_flatten_push(rv);
        }
        let mut i: usize = 0;
        let rn = recs.len();
        assert(done + rv.take(0) =~= done);
        while i < rn
            invariant
                rn == rv.len(),
                i <= rn,
                recs@ == rv.skip(i as int),
                (all@, seen@.dom()) == admit_records(empty_state, done + rv.take(i as int)),
            decreases rn - i,
        {
            assert((done + rv.take(i + 1)).drop_last() =~= done + rv.take(i as int));
            assert((done + rv.take(i + 1)).last() == rv[i as int]);
            assert(rv.skip(i as int)[0] == rv[i as int]);
            let rec = recs.remove(0);
            assert(recs@ =~= rv.skip(i + 1));
            if !seen.contains_key(rec.key.as_str()) {
                seen.insert(rec.key.clone(), true);
                assert(seen@.dom() =~= admit_records(empty_state, done + rv.take(i as int)).1.insert(rv[i as int].key@));
                all.push(rec);
            }
            i = i + 1;
        }
        assert(rv.take(i as int) =~= rv);
        s = s + 1;
    }
    assert(src.take(n as int) =~= src);
    let ghost av = all@;
    let ghost keys = seen@.dom();
    let mut result: Vec<ObjectMeta> = Vec::new();
    let mut m: usize = 0;
    let an = all.len();
    assert(av.take(0) =~= Seq::<ObjectMeta>::empty());
    while m < an
        invariant
            an == av.len(),
            m <= an,
            all@ == av.skip(m as int),
            result@ == sort_by_key(av.take(m as int)),
        decreases an - m,
    {
        assert(av.take(m + 1).drop_last() =~= av.take(m as int));
        assert(av.take(m + 1).last() == av[m as int]);
        assert(av.skip(m as int)[0] == av[m as int]);
        let item = all.remove(0);
        assert(all@ =~= av.skip(m + 1));
        insert_in_order(&mut result, item);
        m = m + 1;
    }
    assert(av.take(m as int) =~= av);
    result.truncate(limit);
    assert(result@ =~= capped(sort_by_key(av), limit as nat));
    result
}

} // verus!
