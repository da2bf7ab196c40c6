//! The sessions of the processes that are running.

use std::collections::HashMap;
use vstd::prelude::*;
use vstd::std_specs::hash::*;
use vstd::std_specs::iter::*;

verus! {

broadcast use vstd::std_specs::hash::group_hash_axioms;

/// How many whole seconds an entry is kept.
pub const TRACKER_STALE_SECS: u64 = 86400;

/// Nanoseconds of a second.
pub const SECOND: u64 = 1_000_000_000;

/// What is known of a running process.
#[derive(Debug)]
pub struct SessionMeta {
    pub session_id: i64,
    pub start_time: i64,
    pub client_id: String,
    /// When the entry was made, in nanoseconds of a clock that never goes back.
    pub inserted_at: u64,
}

/// The view of what is known of a running process.
#[verifier::ext_equal]
pub struct MetaView {
    pub session_id: i64,
    pub start_time: i64,
    pub client_id: Seq<char>,
    pub inserted_at: u64,
}

impl View for SessionMeta {
    type V = MetaView;

    open spec fn view(&self) -> MetaView {
        MetaView {
            session_id: self.session_id,
            start_time: self.start_time,
            client_id: self.client_id@,
            inserted_at: self.inserted_at,
        }
    }
}

/// The running processes by their numbers.
#[derive(Debug)]
pub struct Tracker {
    sessions: HashMap<u32, SessionMeta>,
}

impl View for Tracker {
    type V = Map<u32, SessionMeta>;

    closed spec fn view(&self) -> Map<u32, SessionMeta> {
        self.sessions@
    }
}

/// Whether an entry is too old to be kept.
pub open spec fn stale(meta: SessionMeta, now: u64) -> bool {
    (now - meta.inserted_at) / SECOND as int > TRACKER_STALE_SECS
}

/// The entries that are not too old.
pub open spec fn fresh(all: Map<u32, SessionMeta>, now: u64) -> Map<u32, SessionMeta> {
    all.restrict(Set::new(|pid: u32| all.dom().contains(pid) && !stale(all[pid], now)))
}

/// What one more entry adds to the first entries of a sequence.
proof fn lemma_next_entry(s: Seq<u32>, i: int)
    requires
        0 <= i < s.len(),
    ensures
        forall|k: u32| #[trigger]
            s.take(i + 1).contains(k) <==> s.take(i).contains(k) || k == s[i],
{
    let short = s.take(i);
    let long = s.take(i + 1);
    assert forall|k: u32| #[trigger] long.contains(k) <==> short.contains(k) || k == s[i] by {
        if long.contains(k) {
            let j = choose|j: int| 0 <= j < long.len() && long[j] == k;
            if j < i {
                assert(short[j] == k);
            }
        }
        if short.contains(k) {
            let j = choose|j: int| 0 <= j < short.len() && short[j] == k;
            assert(long[j] == k);
        }
        if k == s[i] {
            assert(long[i] == k);
        }
    }
}

impl Tracker {
    /// A tracker without entries.
    pub fn new() -> (r: Tracker)
        ensures
            r@ == Map::<u32, SessionMeta>::empty(),
    {
        Tracker { sessions: HashMap::new() }
    }

    /// The numbers of all processes, each once.
    fn pids(&self) -> (r: Vec<u32>)
        ensures
            r@.no_duplicates(),
            forall|pid: u32| r@.contains(pid) <==> self@.dom().contains(pid),
    {
        let mut r: Vec<u32> = Vec::new();
        for pid in it: self.sessions.keys()
            invariant
                it.seq() == IteratorSpec::remaining(&spec_keys_iter(&self.sessions)),
                r@ == it.seq().unref().take(it.index() as int),
        {
            r.push(*pid);
        }
        assert(r@ =~= IteratorSpec::remaining(&spec_keys_iter(&self.sessions)).unref());
        assert forall|pid: u32| r@.contains(pid) <==> self@.dom().contains(pid) by {
            assert(r@.to_set().contains(pid) <==> r@.contains(pid));
        }
        r
    }

    /// Enters a process, in place of an earlier entry of the same number. Entries that are too
    /// old are dropped.
    pub fn insert(&mut self, pid: u32, session_id: i64, start_time: i64, client_id: String, now: u64)
        ensures
            final(self)@ == fresh(old(self)@, now).insert(
                pid,
                SessionMeta { session_id, start_time, client_id, inserted_at: now },
            ),
    {
        let pids = self.pids();
        let n: usize = pids.len();
        for i in 0..n
            invariant
                n == pids@.len(),
                pids@.no_duplicates(),
                forall|k: u32| pids@.contains(k) <==> old(self)@.dom().contains(k),
                forall|k: u32| #[trigger]
                    self@.dom().contains(k) <==> old(self)@.dom().contains(k) && !(stale(
                        old(self)@[k],
                        now,
                    ) && pids@.take(i as int).contains(k)),
                forall|k: u32| #[trigger]
                    self@.dom().contains(k) ==> self@[k] == old(self)@[k],
        {
            let k: u32 = pids[i];
            assert(pids@.contains(k));
            proof {
                lemma_next_entry(pids@, i as int);
            }
            let ghost before = self@;
            assert(!pids@.take(i as int).contains(k));
            let old_entry = match self.sessions.get(&k) {
                Some(meta) => now > meta.inserted_at && (now - meta.inserted_at) / SECOND
                    > TRACKER_STALE_SECS,
                None => false,
            };
            if old_entry {
                self.sessions.remove(&k);
                assert(self@ =~= before.remove(k));
            }
        }
        assert(pids@.take(n as int) =~= pids@);
        assert(self@ =~= fresh(old(self)@, now));
        self.sessions.insert(
            pid,
            SessionMeta { session_id, start_time, client_id, inserted_at: now },
        );
    }

    /// Takes a process out.
    pub fn remove(&mut self, pid: u32) -> (r: Option<SessionMeta>)
        ensures
            final(self)@ == old(self)@.remove(pid),
            match r {
                Some(meta) => old(self)@.dom().contains(pid) && meta == old(self)@[pid],
                None => !old(self)@.dom().contains(pid),
            },
    {
        let r = self.sessions.remove(&pid);
        assert(self@ =~= old(self)@.remove(pid));
        r
    }

    /// A copy of a process's entry.
    pub fn get(&self, pid: u32) -> (r: Option<SessionMeta>)
        ensures
            match r {
                Some(meta) => self@.dom().contains(pid) && meta@ == self@[pid]@,
                None => !self@.dom().contains(pid),
            },
    {
        match self.sessions.get(&pid) {
            Some(meta) => Some(
                SessionMeta {
                    session_id: meta.session_id,
                    start_time: meta.start_time,
                    client_id: meta.client_id.clone(),
                    inserted_at: meta.inserted_at,
                },
            ),
            None => None,
        }
    }

    /// How many processes there are.
    pub fn len(&self) -> (r: usize)
        ensures
            r == self@.dom().len(),
    {
        self.sessions.len()
    }

    /// Takes all processes out, each with its entry, in no particular order.
    pub fn drain(&mut self) -> (r: Vec<(u32, SessionMeta)>)
        ensures
            final(self)@ == Map::<u32, SessionMeta>::empty(),
            r@.len() == old(self)@.dom().len(),
            forall|pid: u32, meta: SessionMeta| #[trigger]
                r@.contains((pid, meta)) <==> old(self)@.contains_pair(pid, meta),
            forall|i: int, j: int| 0 <= i < j < r@.len() ==> (#[trigger] r@[i]).0 != (#[trigger] r@[j]).0,
    {
        let pids = self.pids();
        let n: usize = pids.len();
        let mut r: Vec<(u32, SessionMeta)> = Vec::new();
        let ghost all = self@;
        for i in 0..n
            invariant
                n == pids@.len(),
                pids@.no_duplicates(),
                forall|k: u32| pids@.contains(k) <==> all.dom().contains(k),
                r@.len() == i,
                forall|k: int| 0 <= k < i ==> (#[trigger] r@[k]) == (pids@[k], all[pids@[k]]),
                forall|k: u32| #[trigger]
                    self@.dom().contains(k) <==> all.dom().contains(k) && !pids@.take(
                        i as int,
                    ).contains(k),
                forall|k: u32| #[trigger]
                    self@.dom().contains(k) ==> self@[k] == all[k],
        {
            let k: u32 = pids[i];
            assert(pids@.contains(k));
            proof {
                lemma_next_entry(pids@, i as int);
            }
            let ghost before = self@;
            assert(!pids@.take(i as int).contains(k));
            assert(self@.dom().contains(k));
            match self.sessions.remove(&k) {
                Some(meta) => {
                    assert(self@ =~= before.remove(k));
                    r.push((k, meta));
                },
                None => {
                    assert(false);
                },
            }
        }
        proof {
            assert(pids@.take(n as int) =~= pids@);
            assert(self@ =~= Map::<u32, SessionMeta>::empty());
            pids@.unique_seq_to_set();
            assert(pids@.to_set() =~= all.dom());
            assert forall|pid: u32, meta: SessionMeta| #[trigger]
                r@.contains((pid, meta)) <==> all.contains_pair(pid, meta) by {
                if r@.contains((pid, meta)) {
                    let k = choose|k: int| 0 <= k < r@.len() && r@[k] == (pid, meta);
                    assert(r@[k] == (pids@[k], all[pids@[k]]));
                    assert(pids@.contains(pids@[k]));
                }
                if all.contains_pair(pid, meta) {
                    assert(pids@.contains(pid));
                    let k = choose|k: int| 0 <= k < pids@.len() && pids@[k] == pid;
                    assert(r@[k] == (pids@[k], all[pids@[k]]));
                }
            }
        }
        r
    }
}

} // verus!
