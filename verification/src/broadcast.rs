//! The master's registry of workers it can push configuration updates to:
//! each registered worker id with the channel its log connection listens
//! on. The registry decides who receives an update; sending is the
//! caller's.

use vstd::prelude::*;

verus! {

/// No two entries share a worker id.
pub open spec fn distinct_ids<T>(s: Seq<(String, T)>) -> bool {
    forall|i: int, j: int| 0 <= i < j < s.len() ==> s[i].0@ != s[j].0@
}

/// The worker ids of the entries, in order.
pub open spec fn entry_ids<T>(s: Seq<(String, T)>) -> Seq<Seq<char>> {
    s.map_values(|e: (String, T)| e.0@)
}

/// The map that entries with distinct ids stand for: worker id to channel.
pub open spec fn id_map<T>(s: Seq<(String, T)>) -> Map<Seq<char>, T> {
    Map::new(
        |k: Seq<char>| exists|i: int| 0 <= i < s.len() && s[i].0@ == k,
        |k: Seq<char>| s[choose|i: int| 0 <= i < s.len() && s[i].0@ == k].1,
    )
}

/// Among entries with distinct ids, the map holds each entry's channel
/// under its id.
proof fn lemma_id_map_at<T>(s: Seq<(String, T)>, i: int)
    requires
        distinct_ids(s),
        0 <= i < s.len(),
    ensures
        id_map(s).contains_key(s[i].0@),
        id_map(s)[s[i].0@] == s[i].1,
{
    let k = s[i].0@;
    assert(exists|j: int| 0 <= j < s.len() && s[j].0@ == k);
    let j = choose|j: int| 0 <= j < s.len() && s[j].0@ == k;
    if j != i {
        if j < i {
            assert(s[j].0@ != s[i].0@);
        } else {
            assert(s[i].0@ != s[j].0@);
        }
    }
}

/// The registry holds as many workers as entries.
proof fn lemma_id_map_len<T>(s: Seq<(String, T)>)
    requires
        distinct_ids(s),
    ensures
        id_map(s).len() == s.len(),
{
    let ids = entry_ids(s);
    assert(ids.no_duplicates()) by {
        assert forall|i: int, j: int| 0 <= i < ids.len() && 0 <= j < ids.len() && i != j implies ids[i] != ids[j] by {
            if i < j {
                assert(s[i].0@ != s[j].0@);
            } else {
                assert(s[j].0@ != s[i].0@);
            }
        }
    }
    ids.unique_seq_to_set();
    assert(id_map(s).dom() =~= ids.to_set()) by {
        assert forall|k: Seq<char>| id_map(s).dom().contains(k) implies ids.to_set().contains(k) by {
            let i = choose|i: int| 0 <= i < s.len() && s[i].0@ == k;
            assert(ids[i] == k);
        }
        assert forall|k: Seq<char>| ids.to_set().contains(k) implies id_map(s).dom().contains(k) by {
            let i = choose|i: int| 0 <= i < ids.len() && ids[i] == k;
            assert(s[i].0@ == k);
        }
    }
}

/// Registered workers and the channel each one's updates go to.
pub struct ConfigBroadcaster<T> {
    senders: Vec<(String, T)>,
}

impl<T> ConfigBroadcaster<T> {
    /// Worker ids are registered once each.
    pub closed spec fn wf(&self) -> bool {
        distinct_ids(self.senders@)
    }

    /// Worker id to channel.
    pub closed spec fn registered(&self) -> Map<Seq<char>, T> {
        id_map(self.senders@)
    }

    /// A registry with no worker.
    pub fn new() -> (b: Self)
        ensures
            b.wf(),
            b.registered() == Map::<Seq<char>, T>::empty(),
    {
        let b = ConfigBroadcaster { senders: Vec::new() };
        assert(b.registered() =~= Map::<Seq<char>, T>::empty());
        b
    }

    /// Registers the channel of `worker_id`'s connection, replacing the
    /// one it had.
    pub fn register(&mut self, worker_id: String, tx: T)
        requires
            old(self).wf(),
        ensures
            final(self).wf(),
            final(self).registered() == old(self).registered().insert(worker_id@, tx),
    {
        let ghost before = self.senders@;
        let ghost id = worker_id@;
        self.unregister(worker_id.as_str());
        let ghost mid = self.senders@;
        assert(id_map(mid) == id_map(before).remove(id));
        self.senders.push((worker_id, tx));
        let ghost after = self.senders@;
        assert(after == mid.push((worker_id, tx)));
        assert(!id_map(mid).contains_key(id));
        assert(distinct_ids(after)) by {
            assert forall|i: int, j: int| 0 <= i < j < after.len() implies after[i].0@ != after[j].0@ by {
                if j == after.len() - 1 {
                    assert(after[i] == mid[i]);
                    if mid[i].0@ == id {
                        assert(id_map(mid).contains_key(id));
                    }
                } else {
                    assert(after[i] == mid[i] && after[j] == mid[j]);
                }
            }
        }
        assert(id_map(after) =~= id_map(before).insert(id, tx)) by {
            assert forall|k: Seq<char>| #[trigger] id_map(after).contains_key(k) == id_map(before).insert(id, tx).contains_key(k) by {
                if k == id {
                    lemma_id_map_at(after, after.len() - 1);
                } else if id_map(mid).contains_key(k) {
                    let i = choose|i: int| 0 <= i < mid.len() && mid[i].0@ == k;
                    assert(after[i] == mid[i]);
                } else if id_map(after).contains_key(k) {
                    let i = choose|i: int| 0 <= i < after.len() && after[i].0@ == k;
                    assert(i < mid.len());
                    assert(mid[i] == after[i]);
                }
            }
            assert forall|k: Seq<char>| #[trigger] id_map(after).contains_key(k) implies id_map(after)[k] == id_map(before).insert(id, tx)[k] by {
                if k == id {
                    lemma_id_map_at(after, after.len() - 1);
                } else {
                    let i = choose|i: int| 0 <= i < after.len() && after[i].0@ == k;
                    assert(i < mid.len());
                    assert(mid[i] == after[i]);
                    lemma_id_map_at(after, i);
                    lemma_id_map_at(mid, i);
                }
            }
        }
    }

    /// Forgets `worker_id`, whose connection closed.
    pub fn unregister(&mut self, worker_id: &str)
        requires
            old(self).wf(),
        ensures
            final(self).wf(),
            final(self).registered() == old(self).registered().remove(worker_id@),
    {
        let ghost before = self.senders@;
        let mut i: usize = 0;
        while i < self.senders.len()
            invariant
                self.senders@ == before,
                old(self).senders@ == before,
                distinct_ids(before),
                i <= before.len(),
                forall|j: int| 0 <= j < i ==> before[j].0@ != worker_id@,
            decreases before.len() - i,
        {
            if crate::text::str_eq(self.senders[i].0.as_str(), worker_id) {
                let ghost id = worker_id@;
                self.senders.remove(i);
                let ghost after = self.senders@;
                assert(after =~= before.remove(i as int));
                assert(distinct_ids(after)) by {
                    assert forall|a: int, b: int| 0 <= a < b < after.len() implies after[a].0@ != after[b].0@ by {
                        let a0 = if a < i { a } else { a + 1 };
                        let b0 = if b < i { b } else { b + 1 };
                        assert(after[a] == before[a0] && after[b] == before[b0]);
                        assert(a0 < b0);
                    }
                }
                assert(id_map(after) =~= id_map(before).remove(id)) by {
                    assert forall|k: Seq<char>| #[trigger] id_map(after).contains_key(k) == id_map(before).remove(id).contains_key(k) by {
                        if id_map(after).contains_key(k) {
                            let a = choose|a: int| 0 <= a < after.len() && after[a].0@ == k;
                            let a0 = if a < i { a } else { a + 1 };
                            assert(after[a] == before[a0]);
                            if k == id {
                                if a0 < i {
                                    assert(before[a0].0@ != before[i as int].0@);
                                } else {
                                    assert(before[i as int].0@ != before[a0].0@);
                                }
                            }
                        }
                        if id_map(before).remove(id).contains_key(k) {
                            let b = choose|b: int| 0 <= b < before.len() && before[b].0@ == k;
                            assert(b != i);
                            let b1 = if b < i { b } else { b - 1 };
                            assert(after[b1] == before[b]);
                        }
                    }
                    assert forall|k: Seq<char>| #[trigger] id_map(after).contains_key(k) implies id_map(after)[k] == id_map(before).remove(id)[k] by {
                        let a = choose|a: int| 0 <= a < after.len() && after[a].0@ == k;
                        let a0 = if a < i { a } else { a + 1 };
                        assert(after[a] == before[a0]);
                        lemma_id_map_at(after, a);
                        lemma_id_map_at(before, a0);
                    }
                }
                assert(old(self).senders@ == before);
                assert(self.registered() == old(self).registered().remove(id));
                return;
            }
            i = i + 1;
        }
        assert(id_map(before) =~= id_map(before).remove(worker_id@)) by {
            if id_map(before).contains_key(worker_id@) {
                let j = choose|j: int| 0 <= j < before.len() && before[j].0@ == worker_id@;
                assert(before[j].0@ != worker_id@);
            }
        }
    }

    /// The channel of `worker_id`, if it is registered: where an update
    /// for that worker goes.
    pub fn target(&self, worker_id: &str) -> (r: Option<&T>)
        requires
            self.wf(),
        ensures
            match r {
                Some(t) => self.registered().contains_key(worker_id@) && *t == self.registered()[worker_id@],
                None => !self.registered().contains_key(worker_id@),
            },
    {
        let ghost s = self.senders@;
        let mut i: usize = 0;
        while i < self.senders.len()
            invariant
                self.senders@ == s,
                distinct_ids(s),
                i <= s.len(),
                forall|j: int| 0 <= j < i ==> s[j].0@ != worker_id@,
            decreases s.len() - i,
        {
            if crate::text::str_eq(self.senders[i].0.as_str(), worker_id) {
                proof { lemma_id_map_at(s, i as int); }
                return Some(&self.senders[i].1);
            }
            i = i + 1;
        }
        proof {
            if id_map(s).contains_key(worker_id@) {
                let j = choose|j: int| 0 <= j < s.len() && s[j].0@ == worker_id@;
                assert(s[j].0@ != worker_id@);
            }
        }
        None
    }

    /// Every registered worker with its channel, each once: where an update
    /// for all goes.
    pub fn entries(&self) -> (r: &Vec<(String, T)>)
        requires
            self.wf(),
        ensures
            distinct_ids(r@),
            id_map(r@) == self.registered(),
    {
        &self.senders
    }

    /// The number of registered workers.
    pub fn len(&self) -> (n: usize)
        requires
            self.wf(),
        ensures
            n == self.registered().len(),
    {
        proof { lemma_id_map_len(self.senders@); }
        self.senders.len()
    }

    /// Whether no worker is registered.
    pub fn is_empty(&self) -> (b: bool)
        requires
            self.wf(),
        ensures
            b == (self.registered().len() == 0),
    {
        proof { lemma_id_map_len(self.senders@); }
        self.senders.len() == 0
    }
}

} // verus!
